//! The parser: from tokens to events, and from events to a green tree.

pub mod error;
pub mod event;
pub mod grammar;
pub mod marker;
pub mod precedence;
pub mod text_token_source;
pub mod text_tree_sink;
pub mod token_source;
pub mod tree_sink;

use crate::green::{depth, green_steps, is_tree, leaf_bytes, TreeStep};
use crate::lexer::{lemma_lex_kinds, lex, tokenize};
use crate::parser::error::ParseError;
use crate::parser::event::{
    closed, covered, leaf_fits, lemma_resolve_start, lemma_rooted_last, pending, plain, process,
    resolved, rooted, tokens_fit, Event,
};
use crate::parser::marker::Marker;
use crate::parser::text_token_source::{
    first_holding, first_match, first_match_from, joint_at, kind_at, lemma_first_holding,
    lemma_no_eof, matches_at, no_eof, source_tokens, LexerWrap, SourceToken, SourceView,
};
use crate::parser::text_tree_sink::{SinkView, TextTreeSink};
use crate::parser::token_source::{FindProperty, ForwardToken, Token};
use crate::parser::tree_sink::{
    closed_node, finished_errors, finished_steps, fresh, lemma_finished_first,
    lemma_finished_keeps_whole, own_leaves, run, whole_leaves,
};
use vstd::string::StringSliceAdditionalSpecFns;
use crate::syntax_kind::SyntaxKind;
use vstd::prelude::*;

verus! {

/// What a parser holds: the source with its cursor, and the events written
/// so far.
pub struct ParserView {
    /// The token source.
    pub source: SourceView,
    /// The events written so far.
    pub events: Seq<Event>,
}

impl ParserView {
    /// The cursor is within the source, and the `Token` events written so
    /// far take exactly the tokens that the cursor has passed.
    pub open spec fn wf(self) -> bool {
        &&& 0 <= self.source.pos <= self.source.tokens.len() <= usize::MAX
        &&& covered(self.events) == self.source.pos
        &&& tokens_fit(self.events, self.source.tokens)
    }

    /// The number of tokens from the cursor on.
    pub open spec fn remaining(self) -> nat {
        (self.source.tokens.len() - self.source.pos) as nat
    }

    /// `next` can be reached from `self` by reading tokens and adding whole
    /// nodes and leaves: nothing written before changes, and every marker
    /// that is open stays open.
    pub open spec fn leads_to(self, next: ParserView) -> bool {
        &&& next.source.tokens == self.source.tokens
        &&& self.source.pos <= next.source.pos
        &&& next.wf()
        &&& self.events.len() <= next.events.len()
        &&& forall|i: int| 0 <= i < self.events.len() ==> #[trigger] next.events[i] == self.events[i]
        &&& forall|m: int| #[trigger] pending(self.events, m) ==> pending(next.events, m)
    }

    /// The kind of the token `n` places ahead of the cursor.
    pub open spec fn nth(self, n: int) -> SyntaxKind {
        self.source.token_at(n).syntax_kind
    }

    /// The kind of the token under the cursor.
    pub open spec fn current(self) -> SyntaxKind {
        self.nth(0)
    }

    /// Whether a token of kind `kind` starts under the cursor.
    pub open spec fn at(self, kind: SyntaxKind) -> bool {
        matches_at(self.source.tokens, self.source.pos, kind)
    }

    /// The first of `kinds` that starts under the cursor.
    pub open spec fn at_any(self, kinds: Seq<SyntaxKind>) -> Option<SyntaxKind> {
        first_match(self.source.tokens, self.source.pos, kinds)
    }

    /// The parser with one more event.
    pub open spec fn push(self, event: Event) -> ParserView {
        ParserView { source: self.source, events: self.events.push(event) }
    }

    /// The parser after `n` tokens of the source became one leaf of kind
    /// `kind`.
    pub open spec fn do_bump(self, kind: SyntaxKind, n: u8) -> ParserView {
        ParserView {
            source: SourceView { tokens: self.source.tokens, pos: self.source.pos + n },
            events: self.events.push(Event::Token { kind, n_raw_tokens: n }),
        }
    }

    /// The parser after the token under the cursor, if there is one, became
    /// a leaf.
    pub open spec fn bump_any(self) -> ParserView {
        if self.current() == SyntaxKind::EOF {
            self
        } else {
            self.do_bump(self.current(), 1)
        }
    }

    /// Whether `eat(kind)` consumes a token. The end of the source is found
    /// by `eat(EOF)`, but there is nothing to consume.
    pub open spec fn can_eat(self, kind: SyntaxKind) -> bool {
        kind != SyntaxKind::EOF && self.at(kind)
    }

    /// The parser after `eat(kind)`: a token of that kind under the cursor
    /// became a leaf, anything else stayed.
    pub open spec fn eat(self, kind: SyntaxKind) -> ParserView {
        if self.can_eat(kind) {
            self.do_bump(kind, kind.parts().len() as u8)
        } else {
            self
        }
    }

    /// The parser after a complaint.
    pub open spec fn error(self, msg: ParseError) -> ParserView {
        self.push(Event::Error { msg })
    }

    /// The parser after the complaint that `kind` was expected.
    pub open spec fn expect_failed(self, kind: SyntaxKind) -> ParserView {
        self.error(ParseError::Expected { expected: kind, got: self.current() })
    }

    /// The parser after `expect(kind)`: the token is consumed if it is
    /// there; if not, a complaint is written and nothing consumed. The end
    /// of the source, where it is expected and found, leaves the parser as
    /// it is.
    pub open spec fn expect(self, kind: SyntaxKind) -> ParserView {
        if self.at(kind) {
            self.eat(kind)
        } else {
            self.expect_failed(kind)
        }
    }

    /// The parser after `require_newline`: a line break is consumed, the
    /// end of the source is accepted, anything else is complained about and
    /// left.
    pub open spec fn require_newline(self) -> ParserView {
        if self.can_eat(SyntaxKind::NEWLINE) {
            self.eat(SyntaxKind::NEWLINE)
        } else if self.at(SyntaxKind::EOF) {
            self
        } else {
            self.expect_failed(SyntaxKind::NEWLINE)
        }
    }

    /// The parser after every line break under the cursor became a leaf.
    pub open spec fn skip_newlines(self) -> ParserView
        decreases self.remaining(),
    {
        if self.at(SyntaxKind::NEWLINE) && self.source.pos < self.source.tokens.len() {
            self.do_bump(SyntaxKind::NEWLINE, 1).skip_newlines()
        } else {
            self
        }
    }

    /// The parser after `n` times `bump_any`.
    pub open spec fn bump_n(self, n: nat) -> ParserView
        decreases n,
    {
        if n == 0 {
            self
        } else {
            self.bump_any().bump_n((n - 1) as nat)
        }
    }

    /// The parser after every token before the bookmark became a leaf.
    pub open spec fn bump_to(self, bookmark: ForwardToken) -> ParserView {
        self.bump_n(self.source.distance_to(bookmark) as nat)
    }

    /// A bookmark on the first token from the cursor on that is no line
    /// break.
    pub open spec fn next_not_newline(self) -> ForwardToken {
        self.source.find(FindProperty::KindIsNot(SyntaxKind::NEWLINE))
    }

    /// Whether the first token that is no line break has the kind `kind`.
    pub open spec fn next_non_newline_is(self, kind: SyntaxKind) -> bool {
        self.next_not_newline().kind == kind
    }

    /// The parser after `bump_to_if_next_non_newline_is(kind)`: where the
    /// first token that is no line break has that kind, the line breaks
    /// before it became leaves.
    pub open spec fn bump_to_if_next_non_newline_is(self, kind: SyntaxKind) -> ParserView {
        if self.next_non_newline_is(kind) {
            self.bump_to(self.next_not_newline())
        } else {
            self
        }
    }

    /// The first of `kinds` that starts at the first token that is no line
    /// break.
    pub open spec fn next_non_newline_any(self, kinds: Seq<SyntaxKind>) -> Option<SyntaxKind> {
        let bookmark = self.next_not_newline();
        if bookmark.kind == SyntaxKind::EOF {
            None
        } else {
            first_match(self.source.tokens, self.source.pos + bookmark.offset, kinds)
        }
    }

    /// The parser after `bump_to_if_next_non_newline_is_any(kinds)`: where
    /// one of `kinds` starts at the first token that is no line break, the
    /// line breaks before it became leaves.
    pub open spec fn bump_to_if_next_non_newline_is_any(
        self,
        kinds: Seq<SyntaxKind>,
    ) -> ParserView {
        if self.next_non_newline_any(kinds).is_some() {
            self.bump_to(self.next_not_newline())
        } else {
            self
        }
    }

    /// The parser after `unexpected`: a complaint about the token under the
    /// cursor was written, and then the token, if there is one, became a
    /// leaf.
    pub open spec fn unexpected(self) -> ParserView {
        self.error(ParseError::Unexpected { got: self.current() }).bump_any()
    }

    /// The parser after a new marker was set at the end of the events.
    pub open spec fn start(self) -> ParserView {
        self.push(Event::Tombstone)
    }

    /// The parser after the marker at place `m` was completed as a node of
    /// kind `kind`.
    pub open spec fn complete(self, m: int, kind: SyntaxKind) -> ParserView {
        ParserView {
            source: self.source,
            events: self.events.update(m, Event::Start { kind, forward_parent: None }).push(
                Event::Finish,
            ),
        }
    }

    /// The parser after a new marker was set that will become the parent of
    /// the node whose `Start` stands at place `start`.
    pub open spec fn precede(self, start: int) -> ParserView {
        ParserView {
            source: self.source,
            events: self.events.update(
                start,
                Event::Start {
                    kind: self.events[start]->Start_kind,
                    forward_parent: Some(self.events.len() as usize),
                },
            ).push(Event::Tombstone),
        }
    }

    /// The parser after the node from place `start` to place `finish` was
    /// taken back: what it held stays, its marker is open again.
    pub open spec fn undo_completion(self, start: int, finish: int) -> ParserView {
        ParserView {
            source: self.source,
            events: self.events.update(start, Event::Tombstone).update(finish, Event::Tombstone),
        }
    }
}

/// An event that opens and closes nothing may follow an open marker.
pub proof fn lemma_push_keeps_pending(events: Seq<Event>, event: Event, m: int)
    requires
        pending(events, m),
        event.delta() == 0,
    ensures
        pending(events.push(event), m),
{
    reveal(closed);
    reveal(tokens_fit);
    assert(events.push(event).skip(m + 1) =~= events.skip(m + 1).push(event));
    assert(events.skip(m + 1).push(event).drop_last() =~= events.skip(m + 1));
}

/// Writing an event that is no leaf and opens and closes nothing leads on.
pub proof fn lemma_push_quiet(s: ParserView, event: Event)
    requires
        s.wf(),
        event.delta() == 0,
        !(event is Token),
    ensures
        s.leads_to(s.push(event)),
{
    reveal(closed);
    reveal(tokens_fit);
    assert(s.events.push(event).drop_last() =~= s.events);
    assert forall|m: int| #[trigger] pending(s.events, m) implies pending(
        s.push(event).events,
        m,
    ) by {
        lemma_push_keeps_pending(s.events, event, m);
    }
}

/// Making a leaf of tokens that stand side by side under the cursor leads
/// on.
pub proof fn lemma_do_bump(s: ParserView, kind: SyntaxKind, n: u8)
    requires
        s.wf(),
        leaf_fits(s.source.tokens, s.source.pos, kind, n as int),
    ensures
        s.leads_to(s.do_bump(kind, n)),
{
    reveal(closed);
    reveal(tokens_fit);
    let event = Event::Token { kind, n_raw_tokens: n };
    assert(s.events.push(event).drop_last() =~= s.events);
    assert forall|m: int| #[trigger] pending(s.events, m) implies pending(
        s.do_bump(kind, n).events,
        m,
    ) by {
        lemma_push_keeps_pending(s.events, event, m);
    }
}

/// Where a token of kind `kind` can be eaten, its parts stand side by side
/// under the cursor.
pub proof fn lemma_can_eat(s: ParserView, kind: SyntaxKind)
    requires
        s.wf(),
        s.can_eat(kind),
    ensures
        leaf_fits(s.source.tokens, s.source.pos, kind, kind.parts().len() as int),
        1 <= kind.parts().len() <= 3,
        s.leads_to(s.eat(kind)),
{
    reveal(closed);
    reveal(tokens_fit);
    lemma_do_bump(s, kind, kind.parts().len() as u8);
}

/// `bump_any` leads on.
pub proof fn lemma_bump_any(s: ParserView)
    requires
        s.wf(),
    ensures
        s.leads_to(s.bump_any()),
        s.current() != SyntaxKind::EOF ==> s.bump_any().source.pos == s.source.pos + 1,
{
    reveal(closed);
    reveal(tokens_fit);
    if s.current() != SyntaxKind::EOF {
        lemma_do_bump(s, s.current(), 1);
    }
}

/// `leads_to` chains.
pub proof fn lemma_leads_to_trans(a: ParserView, b: ParserView, c: ParserView)
    requires
        a.leads_to(b),
        b.leads_to(c),
    ensures
        a.leads_to(c),
{
    reveal(closed);
    reveal(tokens_fit);
}

/// `n` times `bump_any` leads on, and passes `n` tokens where that many
/// stand before the end.
pub proof fn lemma_bump_n(s: ParserView, n: nat)
    requires
        s.wf(),
    ensures
        s.leads_to(s.bump_n(n)),
        (forall|k: int| s.source.pos <= k < s.source.pos + n ==> kind_at(s.source.tokens, k)
            != SyntaxKind::EOF) ==> s.bump_n(n).source.pos == s.source.pos + n,
    decreases n,
{
    reveal(closed);
    reveal(tokens_fit);
    if n > 0 {
        lemma_bump_any(s);
        lemma_bump_n(s.bump_any(), (n - 1) as nat);
        lemma_leads_to_trans(s, s.bump_any(), s.bump_n(n));
        if forall|k: int| s.source.pos <= k < s.source.pos + n ==> kind_at(s.source.tokens, k)
            != SyntaxKind::EOF {
            assert(kind_at(s.source.tokens, s.source.pos) != SyntaxKind::EOF);
        }
    }
}

/// Skipping line breaks leads on, and ends at a token that is none.
pub proof fn lemma_skip_newlines(s: ParserView)
    requires
        s.wf(),
    ensures
        s.leads_to(s.skip_newlines()),
        !s.skip_newlines().at(SyntaxKind::NEWLINE),
        !s.at(SyntaxKind::NEWLINE) ==> s.skip_newlines() == s,
        s.at(SyntaxKind::NEWLINE) ==> s.skip_newlines().source.pos > s.source.pos,
    decreases s.remaining(),
{
    reveal(closed);
    reveal(tokens_fit);
    if s.at(SyntaxKind::NEWLINE) && s.source.pos < s.source.tokens.len() {
        lemma_do_bump(s, SyntaxKind::NEWLINE, 1);
        lemma_skip_newlines(s.do_bump(SyntaxKind::NEWLINE, 1));
        lemma_leads_to_trans(s, s.do_bump(SyntaxKind::NEWLINE, 1), s.skip_newlines());
    }
}

/// Where a search for a token that is no line break finds one, bumping to
/// it passes line breaks only and stops at the token found.
pub proof fn lemma_bump_to_next_not_newline(s: ParserView)
    requires
        s.wf(),
        s.next_not_newline().kind != SyntaxKind::EOF,
    ensures
        s.leads_to(s.bump_to(s.next_not_newline())),
        s.bump_to(s.next_not_newline()).source.pos == s.source.pos + s.next_not_newline().offset,
        s.bump_to(s.next_not_newline()).current() == s.next_not_newline().kind,
        s.source.pos + s.next_not_newline().offset < s.source.tokens.len(),
{
    reveal(closed);
    reveal(tokens_fit);
    let property = FindProperty::KindIsNot(SyntaxKind::NEWLINE);
    lemma_first_holding(s.source.tokens, s.source.pos, property);
    let i = first_holding(s.source.tokens, s.source.pos, property).unwrap();
    let n = (i - s.source.pos) as nat;
    assert forall|k: int| s.source.pos <= k < s.source.pos + n implies kind_at(
        s.source.tokens,
        k,
    ) != SyntaxKind::EOF by {
        assert(!crate::parser::text_token_source::holds_at(s.source.tokens, k, property));
    }
    lemma_bump_n(s, n);
}

/// The parser's state: the source it reads and the events it has written.
pub struct Parser {
    /// The tokens, with the cursor.
    pub source: LexerWrap,
    /// The events written so far.
    pub events: Vec<Event>,
}

impl View for Parser {
    type V = ParserView;

    open spec fn view(&self) -> ParserView {
        ParserView { source: self.source@, events: self.events@ }
    }
}

impl Parser {
    /// Whether a token of kind `kind` starts under the cursor. A composite
    /// kind is there when its parts follow each other with nothing between
    /// them.
    pub fn at(&self, kind: SyntaxKind) -> (at: bool)
        ensures
            at == self@.at(kind),
    {
        match kind {
            SyntaxKind::AMP2 => self.at_composite2(SyntaxKind::AMP, SyntaxKind::AMP),
            SyntaxKind::PIPE2 => self.at_composite2(SyntaxKind::PIPE, SyntaxKind::PIPE),
            SyntaxKind::PLUS_EQ => self.at_composite2(SyntaxKind::PLUS, SyntaxKind::EQ),
            SyntaxKind::MINUS_EQ => self.at_composite2(SyntaxKind::MINUS, SyntaxKind::EQ),
            SyntaxKind::ASTERISK_EQ => self.at_composite2(SyntaxKind::ASTERISK, SyntaxKind::EQ),
            SyntaxKind::SLASH_EQ => self.at_composite2(SyntaxKind::SLASH, SyntaxKind::EQ),
            SyntaxKind::MODULUS_EQ => self.at_composite2(SyntaxKind::PERCENT, SyntaxKind::EQ),
            SyntaxKind::AMP_EQ => self.at_composite2(SyntaxKind::AMP, SyntaxKind::EQ),
            SyntaxKind::PIPE_EQ => self.at_composite2(SyntaxKind::PIPE, SyntaxKind::EQ),
            SyntaxKind::CARET_EQ => self.at_composite2(SyntaxKind::CARET, SyntaxKind::EQ),
            SyntaxKind::AMP2_EQ => self.at_composite3(
                SyntaxKind::AMP,
                SyntaxKind::AMP,
                SyntaxKind::EQ,
            ),
            SyntaxKind::PIPE2_EQ => self.at_composite3(
                SyntaxKind::PIPE,
                SyntaxKind::PIPE,
                SyntaxKind::EQ,
            ),
            SyntaxKind::EQ_EQ => self.at_composite2(SyntaxKind::EQ, SyntaxKind::EQ),
            SyntaxKind::BANG_EQ => self.at_composite2(SyntaxKind::BANG, SyntaxKind::EQ),
            SyntaxKind::L_ANGLE_EQ => self.at_composite2(SyntaxKind::L_ANGLE, SyntaxKind::EQ),
            SyntaxKind::R_ANGLE_EQ => self.at_composite2(SyntaxKind::R_ANGLE, SyntaxKind::EQ),
            SyntaxKind::COLON2 => self.at_composite2(SyntaxKind::COLON, SyntaxKind::COLON),
            kind => self.current() == kind,
        }
    }

    fn at_composite2(&self, kind1: SyntaxKind, kind2: SyntaxKind) -> (at: bool)
        ensures
            at == (self@.nth(0) == kind1 && joint_at(self@.source.tokens, self@.source.pos)
                && self@.nth(1) == kind2),
    {
        self.current() == kind1 && self.source.is_joint(0) && self.nth(1) == kind2
    }

    fn at_composite3(&self, kind1: SyntaxKind, kind2: SyntaxKind, kind3: SyntaxKind) -> (at: bool)
        ensures
            at == (self@.nth(0) == kind1 && joint_at(self@.source.tokens, self@.source.pos)
                && self@.nth(1) == kind2 && joint_at(self@.source.tokens, self@.source.pos + 1)
                && self@.nth(2) == kind3),
    {
        self.current() == kind1 && self.source.is_joint(0) && self.nth(1) == kind2
            && self.source.is_joint(1) && self.nth(2) == kind3
    }

    /// The first of `kinds` that starts under the cursor.
    pub fn at_any(&self, kinds: &[SyntaxKind]) -> (found: Option<SyntaxKind>)
        ensures
            found == self@.at_any(kinds@),
    {
        let mut j: usize = 0;
        while j < kinds.len()
            invariant
                0 <= j <= kinds.len(),
                first_match_from(self@.source.tokens, self@.source.pos, kinds@, j as int)
                    == self@.at_any(kinds@),
            decreases kinds.len() - j,
        {
            let kind = kinds[j];
            if self.at(kind) {
                return Some(kind);
            }
            j = j + 1;
        }
        None
    }

    /// Consumes a token of kind `kind`, which must be under the cursor.
    pub fn bump(&mut self, kind: SyntaxKind)
        requires
            old(self)@.wf(),
            old(self)@.can_eat(kind),
        ensures
            final(self)@ == old(self)@.eat(kind),
            old(self)@.leads_to(final(self)@),
            final(self)@.source.pos > old(self)@.source.pos,
    {
        self.eat(kind);
    }

    /// Consumes the token under the cursor, whatever it is; at the end it
    /// does nothing.
    pub fn bump_any(&mut self)
        requires
            old(self)@.wf(),
        ensures
            final(self)@ == old(self)@.bump_any(),
            old(self)@.leads_to(final(self)@),
            old(self)@.current() != SyntaxKind::EOF ==> final(self)@.source.pos == old(
                self,
            )@.source.pos + 1,
    {
        let kind = self.current();
        if kind == SyntaxKind::EOF {
            proof {
                lemma_bump_any(self@);
            }
            return ;
        }
        self.do_bump(kind, 1);
    }

    fn do_bump(&mut self, kind: SyntaxKind, n_raw_tokens: u8)
        requires
            old(self)@.wf(),
            leaf_fits(old(self)@.source.tokens, old(self)@.source.pos, kind, n_raw_tokens as int),
        ensures
            final(self)@ == old(self)@.do_bump(kind, n_raw_tokens),
            old(self)@.leads_to(final(self)@),
    {
        let mut i: u8 = 0;
        while i < n_raw_tokens
            invariant
                0 <= i <= n_raw_tokens <= 3,
                self.events == old(self).events,
                self.source@.tokens == old(self)@.source.tokens,
                self.source@.pos == old(self)@.source.pos + i,
                old(self)@.source.pos + n_raw_tokens <= old(self)@.source.tokens.len(),
            decreases n_raw_tokens - i,
        {
            self.source.bump();
            i = i + 1;
        }
        self.push_event(Event::Token { kind, n_raw_tokens });
        proof {
            lemma_do_bump(old(self)@, kind, n_raw_tokens);
        }
    }

    fn expect_failed(&mut self, kind: SyntaxKind)
        requires
            old(self)@.wf(),
        ensures
            final(self)@ == old(self)@.expect_failed(kind),
            old(self)@.leads_to(final(self)@),
    {
        let got = self.current();
        self.error(ParseError::Expected { expected: kind, got });
    }

    /// Consumes a token of kind `kind` if it is under the cursor; if not,
    /// complains and consumes nothing. Says whether the token was there.
    /// For `EOF` that is at the end of the source, where nothing is
    /// consumed and nothing written.
    pub fn expect(&mut self, kind: SyntaxKind) -> (found: bool)
        requires
            old(self)@.wf(),
        ensures
            found == old(self)@.at(kind),
            kind != SyntaxKind::EOF ==> found == old(self)@.can_eat(kind),
            final(self)@ == old(self)@.expect(kind),
            old(self)@.leads_to(final(self)@),
    {
        if self.eat(kind) {
            return true;
        }
        self.expect_failed(kind);
        false
    }

    /// Writes a complaint.
    pub fn error(&mut self, msg: ParseError)
        requires
            old(self)@.wf(),
        ensures
            final(self)@ == old(self)@.error(msg),
            old(self)@.leads_to(final(self)@),
    {
        self.push_event(Event::Error { msg });
        proof {
            lemma_push_quiet(old(self)@, Event::Error { msg });
        }
    }

    /// The number of lexer tokens that make up one token of kind `kind`.
    pub fn sk_raw_tokens(kind: SyntaxKind) -> (n: u8)
        ensures
            n == kind.parts().len(),
            1 <= n <= 3,
    {
        match kind {
            SyntaxKind::AMP2 => 2,
            SyntaxKind::PIPE2 => 2,
            SyntaxKind::PLUS_EQ => 2,
            SyntaxKind::MINUS_EQ => 2,
            SyntaxKind::ASTERISK_EQ => 2,
            SyntaxKind::SLASH_EQ => 2,
            SyntaxKind::MODULUS_EQ => 2,
            SyntaxKind::AMP_EQ => 2,
            SyntaxKind::PIPE_EQ => 2,
            SyntaxKind::CARET_EQ => 2,
            SyntaxKind::AMP2_EQ => 3,
            SyntaxKind::PIPE2_EQ => 3,
            SyntaxKind::EQ_EQ => 2,
            SyntaxKind::BANG_EQ => 2,
            SyntaxKind::L_ANGLE_EQ => 2,
            SyntaxKind::R_ANGLE_EQ => 2,
            SyntaxKind::COLON2 => 2,
            _ => 1,
        }
    }

    /// Consumes a token of kind `kind` if it is under the cursor, and says
    /// whether the token was there. For `EOF` that is at the end of the
    /// source, where nothing is consumed and nothing written.
    pub fn eat(&mut self, kind: SyntaxKind) -> (eaten: bool)
        requires
            old(self)@.wf(),
        ensures
            eaten == old(self)@.at(kind),
            kind != SyntaxKind::EOF ==> eaten == old(self)@.can_eat(kind),
            final(self)@ == old(self)@.eat(kind),
            old(self)@.leads_to(final(self)@),
            eaten && kind != SyntaxKind::EOF ==> final(self)@.source.pos > old(
                self,
            )@.source.pos,
    {
        if self.at(kind) {
            if kind != SyntaxKind::EOF {
                proof {
                    lemma_can_eat(self@, kind);
                }
                self.do_bump(kind, Parser::sk_raw_tokens(kind));
            } else {
                proof {
                    lemma_leads_to_refl(self@);
                }
            }
            true
        } else {
            proof {
                lemma_leads_to_refl(self@);
            }
            false
        }
    }

    /// Consumes the first of `kinds` that is under the cursor, and says
    /// whether there was one. Where that is `EOF`, nothing is consumed.
    pub fn eat_any(&mut self, kinds: &[SyntaxKind]) -> (eaten: bool)
        requires
            old(self)@.wf(),
        ensures
            eaten == (old(self)@.at_any(kinds@) is Some),
            final(self)@ == match old(self)@.at_any(kinds@) {
                Some(kind) => old(self)@.eat(kind),
                None => old(self)@,
            },
            old(self)@.leads_to(final(self)@),
    {
        if let Some(kind) = self.at_any(kinds) {
            self.eat(kind);
            true
        } else {
            proof {
                lemma_leads_to_refl(self@);
            }
            false
        }
    }

    /// The kind of the token under the cursor.
    pub fn current(&self) -> (kind: SyntaxKind)
        ensures
            kind == self@.current(),
    {
        self.nth(0)
    }

    /// The kind of the token `n` places ahead of the cursor.
    pub fn nth(&self, n: usize) -> (kind: SyntaxKind)
        ensures
            kind == self@.nth(n as int),
    {
        self.source.lookahead(n).syntax_kind
    }

    /// Consumes a line break, or accepts the end of the source; complains
    /// about anything else and leaves it.
    pub fn require_newline(&mut self)
        requires
            old(self)@.wf(),
        ensures
            final(self)@ == old(self)@.require_newline(),
            old(self)@.leads_to(final(self)@),
    {
        if self.eat(SyntaxKind::NEWLINE) {
            return ;
        }
        if self.at(SyntaxKind::EOF) {
            return ;
        }
        self.expect_failed(SyntaxKind::NEWLINE);
    }

    /// Whether a line break is under the cursor.
    pub fn has_newline(&self) -> (at: bool)
        ensures
            at == self@.at(SyntaxKind::NEWLINE),
    {
        self.at(SyntaxKind::NEWLINE)
    }

    /// Consumes every token before the bookmark.
    pub fn bump_to(&mut self, forward_token: ForwardToken)
        requires
            old(self)@.wf(),
        ensures
            final(self)@ == old(self)@.bump_to(forward_token),
            old(self)@.leads_to(final(self)@),
    {
        let bumps = self.source.bump_to(forward_token);
        let mut i: usize = 0;
        proof {
            lemma_leads_to_refl(self@);
        }
        while i < bumps
            invariant
                0 <= i <= bumps,
                self@.wf(),
                old(self)@.leads_to(self@),
                self@.bump_n((bumps - i) as nat) == old(self)@.bump_n(bumps as nat),
            decreases bumps - i,
        {
            self.bump_any();
            i = i + 1;
        }
    }

    /// A bookmark on the first token from the cursor on that is no line
    /// break.
    pub fn next_not_newline(&self) -> (bookmark: ForwardToken)
        ensures
            bookmark == self@.next_not_newline(),
    {
        self.source.find(FindProperty::KindIsNot(SyntaxKind::NEWLINE))
    }

    /// Where the first token that is no line break has the kind `kind`,
    /// consumes the line breaks before it and says so.
    pub fn bump_to_if_next_non_newline_is(&mut self, kind: SyntaxKind) -> (found: bool)
        requires
            old(self)@.wf(),
        ensures
            found == old(self)@.next_non_newline_is(kind),
            final(self)@ == old(self)@.bump_to_if_next_non_newline_is(kind),
            old(self)@.leads_to(final(self)@),
            found && kind != SyntaxKind::EOF ==> final(self)@.current() == kind,
    {
        let tk = self.next_not_newline();
        let k = tk.kind;
        if k == kind {
            proof {
                if kind != SyntaxKind::EOF {
                    lemma_bump_to_next_not_newline(self@);
                }
            }
            self.bump_to(tk);
            true
        } else {
            proof {
                lemma_leads_to_refl(self@);
            }
            false
        }
    }

    /// The first of `kinds` that starts at the first token that is no line
    /// break.
    pub fn peek_past_newlines(&self, kinds: &[SyntaxKind]) -> (found: Option<SyntaxKind>)
        ensures
            found == self@.next_non_newline_any(kinds@),
    {
        let tk = self.next_not_newline();
        if tk.kind == SyntaxKind::EOF {
            return None;
        }
        let mut j: usize = 0;
        while j < kinds.len()
            invariant
                0 <= j <= kinds.len(),
                tk == self@.next_not_newline(),
                tk.kind != SyntaxKind::EOF,
                first_match_from(
                    self@.source.tokens,
                    self@.source.pos + tk.offset,
                    kinds@,
                    j as int,
                ) == self@.next_non_newline_any(kinds@),
            decreases kinds.len() - j,
        {
            let kind = kinds[j];
            if self.source.lookahead_is(tk.offset, kind) {
                return Some(kind);
            }
            j = j + 1;
        }
        None
    }

    /// Where one of `kinds` starts at the first token that is no line
    /// break, consumes the line breaks before it and names the kind.
    pub fn bump_to_if_next_non_newline_is_any(&mut self, kinds: &[SyntaxKind]) -> (found: Option<
        SyntaxKind,
    >)
        requires
            old(self)@.wf(),
        ensures
            found == old(self)@.next_non_newline_any(kinds@),
            final(self)@ == old(self)@.bump_to_if_next_non_newline_is_any(kinds@),
            old(self)@.leads_to(final(self)@),
            found is Some ==> final(self)@.at_any(kinds@) == found,
    {
        let found = self.peek_past_newlines(kinds);
        if found.is_some() {
            proof {
                lemma_bump_to_next_not_newline(self@);
            }
            let tk = self.next_not_newline();
            self.bump_to(tk);
        } else {
            proof {
                lemma_leads_to_refl(self@);
            }
        }
        found
    }

    /// Consumes every line break under the cursor.
    pub fn skip_newlines(&mut self)
        requires
            old(self)@.wf(),
        ensures
            final(self)@ == old(self)@.skip_newlines(),
            old(self)@.leads_to(final(self)@),
            !final(self)@.at(SyntaxKind::NEWLINE),
            !old(self)@.at(SyntaxKind::NEWLINE) ==> final(self)@ == old(self)@,
            old(self)@.at(SyntaxKind::NEWLINE) ==> final(self)@.source.pos > old(
                self,
            )@.source.pos,
    {
        proof {
            lemma_leads_to_refl(self@);
            lemma_skip_newlines(self@);
        }
        while self.at(SyntaxKind::NEWLINE)
            invariant
                self@.wf(),
                old(self)@.leads_to(self@),
                self@.skip_newlines() == old(self)@.skip_newlines(),
            ensures
                !self@.at(SyntaxKind::NEWLINE),
                self@ == old(self)@.skip_newlines(),
            decreases self@.remaining(),
        {
            self.do_bump(SyntaxKind::NEWLINE, 1);
        }
    }

    /// Complains about the token under the cursor and consumes it.
    pub fn unexpected(&mut self)
        requires
            old(self)@.wf(),
        ensures
            final(self)@ == old(self)@.unexpected(),
            old(self)@.leads_to(final(self)@),
            old(self)@.current() != SyntaxKind::EOF ==> final(self)@.source.pos > old(
                self,
            )@.source.pos,
    {
        let current = self.current();
        self.error(ParseError::Unexpected { got: current });
        self.bump_any();
    }

    /// Sets a marker at the end of the events.
    pub fn start(&mut self) -> (marker: Marker)
        requires
            old(self)@.wf(),
        ensures
            final(self)@ == old(self)@.start(),
            old(self)@.leads_to(final(self)@),
            marker.pos == old(self)@.events.len(),
            pending(final(self)@.events, marker.pos as int),
    {
        let pos = self.events.len();
        self.push_event(Event::tombstone());
        proof {
            reveal(closed);
            lemma_push_quiet(old(self)@, Event::Tombstone);
            assert(self@.events.skip(pos + 1) =~= Seq::<Event>::empty());
        }
        Marker::new(pos)
    }

    fn push_event(&mut self, event: Event)
        ensures
            final(self)@ == old(self)@.push(event),
    {
        self.events.push(event)
    }
}

/// Standing still leads on.
pub proof fn lemma_leads_to_refl(s: ParserView)
    requires
        s.wf(),
    ensures
        s.leads_to(s),
{
    reveal(closed);
    reveal(tokens_fit);
}

impl Parser {
    /// Parses the whole source.
    pub fn parse(&mut self)
        requires
            old(self)@.wf(),
        ensures
            final(self)@ == grammar::root(old(self)@),
            final(self)@.wf(),
            final(self)@.source.tokens == old(self)@.source.tokens,
            final(self)@.at(SyntaxKind::EOF),
            no_eof(old(self)@.source.tokens) ==> final(self)@.source.pos == old(
                self,
            )@.source.tokens.len(),
            old(self)@.events.len() == 0 ==> rooted(final(self)@.events),
            old(self)@.events.len() == 0 ==> final(self)@.events[0] == (Event::Start {
                kind: SyntaxKind::ROOT,
                forward_parent: None,
            }),
    {
        grammar::parse_root(self);
    }
}

/// A parser at the start of the tokens, with nothing written.
pub open spec fn start_state(tokens: Seq<SourceToken>) -> ParserView {
    ParserView { source: SourceView { tokens, pos: 0 }, events: Seq::empty() }
}

/// The events that the parser writes for the tokens of the lexer.
pub open spec fn parsed_events(raw: Seq<Token>) -> Seq<Event> {
    grammar::root(start_state(source_tokens(raw))).events
}

/// The tree of a text, as the calls that build it.
pub open spec fn tree_of(text: Seq<u8>) -> Seq<TreeStep> {
    finished_steps(text, lex(text), resolved(parsed_events(lex(text))))
}

/// The complaints about a text, each with the byte under which it is
/// filed.
pub open spec fn errors_of(text: Seq<u8>) -> Seq<(ParseError, u32)> {
    finished_errors(text, lex(text), resolved(parsed_events(lex(text))))
}

/// Parses the tokens of `source` and hands the events to `sink`. The
/// source must stand at its start, and the sink must be new and hold the
/// tokens that the source was made of.
pub fn parse_to_sink(source: &mut LexerWrap, sink: &mut TextTreeSink)
    requires
        old(source)@ == (SourceView { tokens: source_tokens(old(sink)@.tokens), pos: 0 }),
        old(sink).wf(),
        old(sink)@.model == fresh(),
    ensures
        final(source)@ == grammar::root(start_state(old(source)@.tokens)).source,
        matches_at(final(source)@.tokens, final(source)@.pos, SyntaxKind::EOF),
        no_eof(old(source)@.tokens) ==> final(source)@.pos == old(source)@.tokens.len(),
        covered(resolved(parsed_events(old(sink)@.tokens))) == final(source)@.pos,
        final(sink).wf(),
        final(sink)@ == (SinkView {
            model: run(
                old(sink)@.text,
                old(sink)@.tokens,
                resolved(parsed_events(old(sink)@.tokens)),
            ),
            ..old(sink)@
        }),
        final(sink)@.model.steps.len() > 0,
        depth(final(sink)@.model.steps) == 0,
        rooted(parsed_events(old(sink)@.tokens)),
        rooted(resolved(parsed_events(old(sink)@.tokens))),
        plain(resolved(parsed_events(old(sink)@.tokens))),
        tokens_fit(
            resolved(parsed_events(old(sink)@.tokens)),
            source_tokens(old(sink)@.tokens),
        ),
        parsed_events(old(sink)@.tokens)[0] == (Event::Start {
            kind: SyntaxKind::ROOT,
            forward_parent: None,
        }),
{
    let none: [Token; 0] = [];
    proof {
        assert(none@ =~= Seq::<Token>::empty());
    }
    let mut p = Parser { source: LexerWrap::new(&none), events: Vec::new() };
    core::mem::swap(source, &mut p.source);
    let left = p.source.remaining();
    proof {
        reveal(tokens_fit);
        assert(p@ == start_state(old(source)@.tokens));
    }
    p.parse();
    core::mem::swap(source, &mut p.source);
    process(sink, p.events);
}

/// Parses a text into a green tree and the complaints about it.
///
/// The tree is one node, `ROOT`. Its leaves hold every byte of the text,
/// in order, and every blank, comment and line break of the lexer is a
/// leaf of its own. The events from which the tree is built open as many
/// nodes as they close, and none of them is a tombstone when the tree is
/// built.
/// The parser reads the source to its end: the leaves that it makes take
/// every token that is no trivia. The text must not be longer than a span
/// can say.
pub fn parse(text: &str) -> (result: (rowan::GreenNode, Vec<(ParseError, u32)>))
    requires
        text.spec_bytes().len() <= u32::MAX,
    ensures
        green_steps(result.0) == tree_of(text.spec_bytes()),
        result.1@ == errors_of(text.spec_bytes()),
        is_tree(green_steps(result.0)),
        leaf_bytes(green_steps(result.0)) == text.spec_bytes(),
        leaf_bytes(green_steps(result.0)).len() == text.spec_bytes().len(),
        whole_leaves(green_steps(result.0)) == whole_leaves(
            own_leaves(
                text.spec_bytes(),
                lex(text.spec_bytes()),
                0,
                lex(text.spec_bytes()).len() as int,
            ),
        ),
        rooted(parsed_events(lex(text.spec_bytes()))),
        covered(resolved(parsed_events(lex(text.spec_bytes())))) == source_tokens(
            lex(text.spec_bytes()),
        ).len(),
        rooted(resolved(parsed_events(lex(text.spec_bytes())))),
        plain(resolved(parsed_events(lex(text.spec_bytes())))),
        green_steps(result.0)[0] == TreeStep::Start(SyntaxKind::ROOT.raw()),
{
    let tokens = tokenize(text);
    let count = tokens.len();
    proof {
        lemma_lex_kinds(text.spec_bytes(), 0);
        lemma_no_eof(tokens@);
    }
    let mut lexer = LexerWrap::new(tokens.as_slice());
    let mut sink = TextTreeSink::new(text, tokens.as_slice());
    parse_to_sink(&mut lexer, &mut sink);
    let ghost bytes = text.spec_bytes();
    let ghost steps = resolved(parsed_events(tokens@));
    let ghost before = run(bytes, tokens@, steps.drop_last());
    proof {
        lemma_rooted_last(steps);
        assert(run(bytes, tokens@, steps) == closed_node(before));
        assert(sink@.model.steps.drop_last() =~= before.steps);
        assert(sink@.model.pos == before.pos);
        assert(sink@.model.errors == before.errors);
    }
    let result = sink.finish();
    proof {
        assert(green_steps(result.0) == finished_steps(bytes, tokens@, steps));
        assert(result.1@ == finished_errors(bytes, tokens@, steps));
        lemma_resolve_start(parsed_events(tokens@), 0);
        lemma_finished_first(bytes, tokens@, steps);
        lemma_finished_keeps_whole(bytes, tokens@, steps);
    }
    result
}

} // verus!

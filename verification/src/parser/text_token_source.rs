//! The token source that the parser reads: the lexer's tokens without the
//! trivia, a cursor, and lookahead that knows composite tokens.

use crate::parser::token_source::{FindProperty, ForwardToken, Token};
use crate::syntax_kind::SyntaxKind;
use vstd::prelude::*;

verus! {

/// A token that the parser sees, with its place in the source.
#[derive(Clone, Copy, Debug, PartialEq, Eq, Structural)]
pub struct SourceToken {
    /// The token itself.
    pub token: Token,
    /// The byte at which the token starts in the source text.
    pub offset: u32,
    /// The place of the token among all tokens of the lexer, trivia included.
    pub index: usize,
}

/// What a token source holds: the tokens that are no trivia, and the cursor.
pub struct SourceView {
    /// The tokens that the parser sees, in source order.
    pub tokens: Seq<SourceToken>,
    /// The number of tokens that the cursor has passed.
    pub pos: int,
}

/// The number of bytes that `raw` covers.
pub open spec fn total_len(raw: Seq<Token>) -> nat
    decreases raw.len(),
{
    if raw.len() == 0 {
        0
    } else {
        total_len(raw.drop_last()) + raw.last().len as nat
    }
}

/// The tokens of `raw` that are no trivia, each with the byte at which it
/// starts and its place in `raw`.
pub open spec fn source_tokens(raw: Seq<Token>) -> Seq<SourceToken>
    decreases raw.len(),
{
    if raw.len() == 0 {
        Seq::empty()
    } else if raw.last().syntax_kind.is_trivia_spec() {
        source_tokens(raw.drop_last())
    } else {
        source_tokens(raw.drop_last()).push(
            SourceToken {
                token: raw.last(),
                offset: total_len(raw.drop_last()) as u32,
                index: (raw.len() - 1) as usize,
            },
        )
    }
}

/// The kind of the token at place `i`, `EOF` where there is none.
pub open spec fn kind_at(tokens: Seq<SourceToken>, i: int) -> SyntaxKind {
    if 0 <= i < tokens.len() {
        tokens[i].token.syntax_kind
    } else {
        SyntaxKind::EOF
    }
}

/// Whether the tokens at `i` and `i + 1` stood side by side in the source,
/// with no trivia between them.
pub open spec fn joint_at(tokens: Seq<SourceToken>, i: int) -> bool {
    0 <= i && i + 1 < tokens.len() && tokens[i].index + 1 == tokens[i + 1].index
}

/// Whether a token of kind `kind` starts at place `i`. For a composite kind
/// its parts must follow each other with nothing between them.
pub open spec fn matches_at(tokens: Seq<SourceToken>, i: int, kind: SyntaxKind) -> bool {
    let parts = kind.parts();
    &&& kind_at(tokens, i) == parts[0]
    &&& parts.len() >= 2 ==> joint_at(tokens, i) && kind_at(tokens, i + 1) == parts[1]
    &&& parts.len() >= 3 ==> joint_at(tokens, i + 1) && kind_at(tokens, i + 2) == parts[2]
}

/// The first of `kinds`, from its place `j` on, that starts at place `i`.
pub open spec fn first_match_from(
    tokens: Seq<SourceToken>,
    i: int,
    kinds: Seq<SyntaxKind>,
    j: int,
) -> Option<SyntaxKind>
    decreases kinds.len() - j,
{
    if j < 0 || j >= kinds.len() {
        None
    } else if matches_at(tokens, i, kinds[j]) {
        Some(kinds[j])
    } else {
        first_match_from(tokens, i, kinds, j + 1)
    }
}

/// The first of `kinds` that starts at place `i`.
pub open spec fn first_match(tokens: Seq<SourceToken>, i: int, kinds: Seq<SyntaxKind>) -> Option<
    SyntaxKind,
> {
    first_match_from(tokens, i, kinds, 0)
}

/// Whether the token at place `i` has the property.
pub open spec fn holds_at(tokens: Seq<SourceToken>, i: int, property: FindProperty) -> bool {
    match property {
        FindProperty::In(kinds) => first_match(tokens, i, kinds@).is_some(),
        FindProperty::NotIn(kinds) => first_match(tokens, i, kinds@).is_none(),
        FindProperty::KindIs(kind) => matches_at(tokens, i, kind),
        FindProperty::KindIsNot(kind) => !matches_at(tokens, i, kind),
    }
}

/// The kind that a search reports for a token found at place `i`: for `In`
/// the first of the given kinds that starts there, else the kind of the
/// lexer token at that place.
pub open spec fn found_kind(tokens: Seq<SourceToken>, i: int, property: FindProperty) -> SyntaxKind {
    match property {
        FindProperty::In(kinds) => match first_match(tokens, i, kinds@) {
            Some(kind) => kind,
            None => SyntaxKind::EOF,
        },
        _ => kind_at(tokens, i),
    }
}

/// The first place from `from` on whose token has the property.
pub open spec fn first_holding(tokens: Seq<SourceToken>, from: int, property: FindProperty) -> Option<
    int,
>
    decreases tokens.len() - from,
{
    if from < 0 || from >= tokens.len() {
        None
    } else if holds_at(tokens, from, property) {
        Some(from)
    } else {
        first_holding(tokens, from + 1, property)
    }
}

impl SourceView {
    /// The token `n` places ahead of the cursor; past the end a token of
    /// kind `EOF` and length 0.
    pub open spec fn token_at(self, n: int) -> Token {
        if 0 <= self.pos + n < self.tokens.len() {
            self.tokens[self.pos + n].token
        } else {
            Token { syntax_kind: SyntaxKind::EOF, len: 0 }
        }
    }

    /// The source after one `bump`.
    pub open spec fn bumped(self) -> SourceView {
        if self.pos < self.tokens.len() {
            SourceView { tokens: self.tokens, pos: self.pos + 1 }
        } else {
            self
        }
    }

    /// What `find` returns: a bookmark on the first token from the cursor on
    /// that has the property, or the bookmark for none.
    pub open spec fn find(self, property: FindProperty) -> ForwardToken {
        match first_holding(self.tokens, self.pos, property) {
            Some(i) => ForwardToken {
                kind: found_kind(self.tokens, i, property),
                offset: (i - self.pos) as usize,
                state: self.pos as usize,
            },
            None => ForwardToken::not_found(),
        }
    }

    /// What `bump_to` returns: how far `bookmark` is ahead of the cursor. A
    /// bookmark of kind `EOF`, or one that the cursor has passed, is 0 ahead.
    pub open spec fn distance_to(self, bookmark: ForwardToken) -> int {
        if bookmark.kind == SyntaxKind::EOF || bookmark.state + bookmark.offset > usize::MAX
            || bookmark.state + bookmark.offset < self.pos {
            0
        } else {
            bookmark.state + bookmark.offset - self.pos
        }
    }
}

/// `first_holding` names the least place from `from` on that has the
/// property, and finds none only where no place has it.
pub proof fn lemma_first_holding(tokens: Seq<SourceToken>, from: int, property: FindProperty)
    requires
        0 <= from,
    ensures
        match first_holding(tokens, from, property) {
            Some(i) => {
                &&& from <= i < tokens.len()
                &&& holds_at(tokens, i, property)
                &&& forall|k: int| from <= k < i ==> !holds_at(tokens, k, property)
            },
            None => forall|k: int| from <= k < tokens.len() ==> !holds_at(tokens, k, property),
        },
    decreases tokens.len() - from,
{
    if from < tokens.len() && !holds_at(tokens, from, property) {
        lemma_first_holding(tokens, from + 1, property);
    }
}

/// The bytes covered grow with the tokens taken.
pub proof fn lemma_total_len_take(raw: Seq<Token>, i: int)
    requires
        0 <= i <= raw.len(),
    ensures
        total_len(raw.take(i)) <= total_len(raw),
        i < raw.len() ==> total_len(raw.take(i + 1)) == total_len(raw.take(i)) + raw[i].len,
    decreases raw.len() - i,
{
    if i < raw.len() {
        assert(raw.take(i + 1).drop_last() =~= raw.take(i));
        lemma_total_len_take(raw, i + 1);
    } else {
        assert(raw.take(i) =~= raw);
    }
}

/// No token has the kind `EOF`, which stands for the end of the source. The
/// tokens of the lexer are such.
pub open spec fn no_eof(tokens: Seq<SourceToken>) -> bool {
    forall|i: int|
        0 <= i < tokens.len() ==> (#[trigger] tokens[i]).token.syntax_kind != SyntaxKind::EOF
}

/// Where the lexer's tokens hold none of kind `EOF`, those that the parser
/// sees hold none either.
pub proof fn lemma_no_eof(raw: Seq<Token>)
    requires
        raw.len() <= usize::MAX,
        forall|i: int| 0 <= i < raw.len() ==> (#[trigger] raw[i]).syntax_kind != SyntaxKind::EOF,
    ensures
        no_eof(source_tokens(raw)),
{
    lemma_source_tokens(raw);
    assert forall|i: int| 0 <= i < source_tokens(raw).len() implies (#[trigger] source_tokens(
        raw,
    )[i]).token.syntax_kind != SyntaxKind::EOF by {
        let seen = source_tokens(raw)[i];
        assert(seen.token == raw[seen.index as int]);
    }
}

/// The number of tokens before place `p` that are no trivia.
pub open spec fn kept_before(raw: Seq<Token>, p: int) -> int {
    source_tokens(raw.take(p)).len() as int
}

/// Each token that the parser sees is the token of the lexer at its
/// `index`, which is no trivia, and as many tokens that are no trivia stand
/// before it as its place among the parser's tokens says.
pub proof fn lemma_source_tokens(raw: Seq<Token>)
    requires
        raw.len() <= usize::MAX,
    ensures
        source_tokens(raw).len() <= raw.len(),
        forall|k: int|
            0 <= k < source_tokens(raw).len() ==> {
                let seen = #[trigger] source_tokens(raw)[k];
                &&& 0 <= seen.index < raw.len()
                &&& !raw[seen.index as int].syntax_kind.is_trivia_spec()
                &&& seen.token == raw[seen.index as int]
                &&& kept_before(raw, seen.index as int) == k
            },
    decreases raw.len(),
{
    if raw.len() > 0 {
        let front = raw.drop_last();
        lemma_source_tokens(front);
        assert forall|k: int| 0 <= k < source_tokens(raw).len() implies {
            let seen = #[trigger] source_tokens(raw)[k];
            &&& 0 <= seen.index < raw.len()
            &&& !raw[seen.index as int].syntax_kind.is_trivia_spec()
            &&& seen.token == raw[seen.index as int]
            &&& kept_before(raw, seen.index as int) == k
        } by {
            if k < source_tokens(front).len() {
                let seen = source_tokens(front)[k];
                assert(front.take(seen.index as int) =~= raw.take(seen.index as int));
            } else {
                assert(raw.take(raw.len() - 1) =~= front);
            }
        }
    }
}

/// Counting the tokens that are no trivia, one place on.
pub proof fn lemma_kept_step(raw: Seq<Token>, p: int)
    requires
        0 <= p < raw.len(),
    ensures
        kept_before(raw, p + 1) == kept_before(raw, p) + if raw[p].syntax_kind.is_trivia_spec() {
            0int
        } else {
            1int
        },
        kept_before(raw, 0) == 0,
        kept_before(raw, raw.len() as int) == source_tokens(raw).len(),
{
    assert(raw.take(p + 1).drop_last() =~= raw.take(p));
    assert(raw.take(0) =~= Seq::<Token>::empty());
    assert(raw.take(raw.len() as int) =~= raw);
}

/// The count of tokens that are no trivia grows with the place.
pub proof fn lemma_kept_monotone(raw: Seq<Token>, p: int, q: int)
    requires
        0 <= p <= q <= raw.len(),
    ensures
        kept_before(raw, p) <= kept_before(raw, q),
    decreases q - p,
{
    if p < q {
        lemma_kept_monotone(raw, p, q - 1);
        lemma_kept_step(raw, q - 1);
    }
}

/// Where `c` tokens that are no trivia stand before place `pos`, the token
/// that the parser sees at its place `c` is the first token from `pos` on
/// that is no trivia.
pub proof fn lemma_next_kept(raw: Seq<Token>, pos: int, c: int, t: int)
    requires
        raw.len() <= usize::MAX,
        0 <= pos <= t <= raw.len(),
        kept_before(raw, pos) == c,
        0 <= c < source_tokens(raw).len(),
        forall|k: int| pos <= k < t ==> (#[trigger] raw[k]).syntax_kind.is_trivia_spec(),
        t < raw.len() ==> !raw[t].syntax_kind.is_trivia_spec(),
    ensures
        source_tokens(raw)[c].index == t,
        t < raw.len(),
        kept_before(raw, t + 1) == c + 1,
{
    lemma_source_tokens(raw);
    lemma_kept_run(raw, pos, t);
    let idx = source_tokens(raw)[c].index as int;
    lemma_kept_step(raw, idx);
    if idx < t {
        lemma_kept_monotone(raw, idx + 1, t);
    } else if idx > t {
        lemma_kept_step(raw, t);
        lemma_kept_monotone(raw, t + 1, idx);
    }
}

/// Trivia does not count.
pub proof fn lemma_kept_run(raw: Seq<Token>, pos: int, t: int)
    requires
        0 <= pos <= t <= raw.len(),
        forall|k: int| pos <= k < t ==> (#[trigger] raw[k]).syntax_kind.is_trivia_spec(),
    ensures
        kept_before(raw, t) == kept_before(raw, pos),
    decreases t - pos,
{
    if pos < t {
        lemma_kept_run(raw, pos, t - 1);
        lemma_kept_step(raw, t - 1);
    }
}

/// The parser's view of the lexer's tokens: trivia is left out, a cursor
/// walks over the rest.
#[derive(Debug)]
pub struct LexerWrap {
    pos: usize,
    tokens: Vec<SourceToken>,
}

impl View for LexerWrap {
    type V = SourceView;

    closed spec fn view(&self) -> SourceView {
        SourceView { tokens: self.tokens@, pos: self.pos as int }
    }
}

impl LexerWrap {
    #[verifier::type_invariant]
    spec fn cursor_in_range(self) -> bool {
        self.pos <= self.tokens.len()
    }

    /// The number of tokens from the cursor on. The cursor never leaves the
    /// tokens.
    pub fn remaining(&self) -> (n: usize)
        ensures
            0 <= self@.pos <= self@.tokens.len() <= usize::MAX,
            n == self@.tokens.len() - self@.pos,
    {
        proof {
            use_type_invariant(self);
        }
        self.tokens.len() - self.pos
    }

    /// Creates a new `LexerWrap` from the list of tokens and starts at token
    /// indexed `0`.
    pub fn new(tokens: &[Token]) -> (source: Self)
        requires
            total_len(tokens@) <= u32::MAX,
        ensures
            source@.tokens == source_tokens(tokens@),
            source@.pos == 0,
    {
        let mut text_off: u32 = 0;
        let mut kept: Vec<SourceToken> = Vec::new();
        let mut i: usize = 0;
        while i < tokens.len()
            invariant
                0 <= i <= tokens.len(),
                total_len(tokens@) <= u32::MAX,
                text_off == total_len(tokens@.take(i as int)),
                kept@ == source_tokens(tokens@.take(i as int)),
            decreases tokens.len() - i,
        {
            let it = tokens[i];
            proof {
                lemma_total_len_take(tokens@, i as int);
                lemma_total_len_take(tokens@, i + 1);
                assert(tokens@.take(i + 1).drop_last() =~= tokens@.take(i as int));
            }
            if !it.syntax_kind.is_trivia() {
                kept.push(SourceToken { token: it, offset: text_off, index: i });
            }
            text_off = text_off + it.len;
            i = i + 1;
        }
        proof {
            assert(tokens@.take(i as int) =~= tokens@);
        }
        LexerWrap { pos: 0, tokens: kept }
    }

    /// The token under the cursor.
    pub fn current(&self) -> (token: Token)
        ensures
            token == self@.token_at(0),
    {
        self.lookahead(0)
    }

    /// The token `n` places ahead of the cursor.
    pub fn lookahead(&self, n: usize) -> (token: Token)
        ensures
            token == self@.token_at(n as int),
    {
        proof {
            use_type_invariant(self);
        }
        if n < self.tokens.len() - self.pos {
            self.tokens[self.pos + n].token
        } else {
            Token { syntax_kind: SyntaxKind::EOF, len: 0 }
        }
    }

    /// Whether the token `n` places ahead of the cursor and the one after it
    /// stood side by side in the source.
    pub fn is_joint(&self, n: usize) -> (joint: bool)
        ensures
            joint == joint_at(self@.tokens, self@.pos + n),
    {
        proof {
            use_type_invariant(self);
        }
        if n < self.tokens.len() - self.pos {
            self.joint_abs(self.pos + n)
        } else {
            false
        }
    }

    /// The byte at which the token `n` places ahead of the cursor starts, if
    /// there is such a token.
    pub fn text_offset(&self, n: usize) -> (offset: Option<u32>)
        ensures
            offset == if 0 <= self@.pos + n < self@.tokens.len() {
                Some(self@.tokens[self@.pos + n].offset)
            } else {
                None
            },
    {
        proof {
            use_type_invariant(self);
        }
        if n < self.tokens.len() - self.pos {
            Some(self.tokens[self.pos + n].offset)
        } else {
            None
        }
    }

    /// Moves the cursor one token on; at the end it stays.
    pub fn bump(&mut self)
        ensures
            final(self)@ == old(self)@.bumped(),
    {
        proof {
            use_type_invariant(&*self);
        }
        if self.pos < self.tokens.len() {
            self.pos = self.pos + 1;
        }
    }

    fn kind_abs(&self, i: usize) -> (kind: SyntaxKind)
        ensures
            kind == kind_at(self@.tokens, i as int),
    {
        if i < self.tokens.len() {
            self.tokens[i].token.syntax_kind
        } else {
            SyntaxKind::EOF
        }
    }

    fn joint_abs(&self, i: usize) -> (joint: bool)
        ensures
            joint == joint_at(self@.tokens, i as int),
    {
        if i < self.tokens.len() && self.tokens.len() - i >= 2 {
            let a = self.tokens[i].index;
            let b = self.tokens[i + 1].index;
            a < b && b - a == 1
        } else {
            false
        }
    }

    fn at_composite2(&self, i: usize, kind1: SyntaxKind, kind2: SyntaxKind) -> (at: bool)
        ensures
            at == (kind_at(self@.tokens, i as int) == kind1 && joint_at(self@.tokens, i as int)
                && kind_at(self@.tokens, i + 1) == kind2),
    {
        let n = self.tokens.len();
        if self.kind_abs(i) == kind1 && self.joint_abs(i) {
            assert(i + 1 < n);
            self.kind_abs(i + 1) == kind2
        } else {
            false
        }
    }

    fn at_composite3(
        &self,
        i: usize,
        kind1: SyntaxKind,
        kind2: SyntaxKind,
        kind3: SyntaxKind,
    ) -> (at: bool)
        ensures
            at == (kind_at(self@.tokens, i as int) == kind1 && joint_at(self@.tokens, i as int)
                && kind_at(self@.tokens, i + 1) == kind2 && joint_at(self@.tokens, i + 1)
                && kind_at(self@.tokens, i + 2) == kind3),
    {
        let n = self.tokens.len();
        if self.at_composite2(i, kind1, kind2) {
            assert(i + 1 < n);
            if self.joint_abs(i + 1) {
                assert(i + 2 < n);
                self.kind_abs(i + 2) == kind3
            } else {
                false
            }
        } else {
            false
        }
    }

    /// Whether a token of kind `kind` starts at place `i`, counted from the
    /// first token.
    fn at(&self, i: usize, kind: SyntaxKind) -> (at: bool)
        ensures
            at == matches_at(self@.tokens, i as int, kind),
    {
        match kind {
            SyntaxKind::AMP2 => self.at_composite2(i, SyntaxKind::AMP, SyntaxKind::AMP),
            SyntaxKind::PIPE2 => self.at_composite2(i, SyntaxKind::PIPE, SyntaxKind::PIPE),
            SyntaxKind::PLUS_EQ => self.at_composite2(i, SyntaxKind::PLUS, SyntaxKind::EQ),
            SyntaxKind::MINUS_EQ => self.at_composite2(i, SyntaxKind::MINUS, SyntaxKind::EQ),
            SyntaxKind::ASTERISK_EQ => self.at_composite2(i, SyntaxKind::ASTERISK, SyntaxKind::EQ),
            SyntaxKind::SLASH_EQ => self.at_composite2(i, SyntaxKind::SLASH, SyntaxKind::EQ),
            SyntaxKind::MODULUS_EQ => self.at_composite2(i, SyntaxKind::PERCENT, SyntaxKind::EQ),
            SyntaxKind::AMP_EQ => self.at_composite2(i, SyntaxKind::AMP, SyntaxKind::EQ),
            SyntaxKind::PIPE_EQ => self.at_composite2(i, SyntaxKind::PIPE, SyntaxKind::EQ),
            SyntaxKind::CARET_EQ => self.at_composite2(i, SyntaxKind::CARET, SyntaxKind::EQ),
            SyntaxKind::AMP2_EQ => self.at_composite3(
                i,
                SyntaxKind::AMP,
                SyntaxKind::AMP,
                SyntaxKind::EQ,
            ),
            SyntaxKind::PIPE2_EQ => self.at_composite3(
                i,
                SyntaxKind::PIPE,
                SyntaxKind::PIPE,
                SyntaxKind::EQ,
            ),
            SyntaxKind::EQ_EQ => self.at_composite2(i, SyntaxKind::EQ, SyntaxKind::EQ),
            SyntaxKind::BANG_EQ => self.at_composite2(i, SyntaxKind::BANG, SyntaxKind::EQ),
            SyntaxKind::L_ANGLE_EQ => self.at_composite2(i, SyntaxKind::L_ANGLE, SyntaxKind::EQ),
            SyntaxKind::R_ANGLE_EQ => self.at_composite2(i, SyntaxKind::R_ANGLE, SyntaxKind::EQ),
            SyntaxKind::COLON2 => self.at_composite2(i, SyntaxKind::COLON, SyntaxKind::COLON),
            kind => self.kind_abs(i) == kind,
        }
    }

    /// Whether a token of kind `kind` starts `n` places ahead of the cursor.
    pub fn lookahead_is(&self, n: usize, kind: SyntaxKind) -> (at: bool)
        ensures
            at == matches_at(self@.tokens, self@.pos + n, kind),
    {
        proof {
            use_type_invariant(self);
        }
        if n < self.tokens.len() - self.pos {
            self.at(self.pos + n, kind)
        } else {
            kind == SyntaxKind::EOF
        }
    }

    /// The first of `kinds` that starts at place `i`.
    fn at_any(&self, i: usize, kinds: &[SyntaxKind]) -> (found: Option<SyntaxKind>)
        ensures
            found == first_match(self@.tokens, i as int, kinds@),
    {
        let mut j: usize = 0;
        while j < kinds.len()
            invariant
                0 <= j <= kinds.len(),
                first_match_from(self@.tokens, i as int, kinds@, j as int) == first_match(
                    self@.tokens,
                    i as int,
                    kinds@,
                ),
            decreases kinds.len() - j,
        {
            let kind = kinds[j];
            if self.at(i, kind) {
                return Some(kind);
            }
            j = j + 1;
        }
        None
    }

    /// Tests the property at place `i` and names the kind to report there.
    fn test(&self, i: usize, property: &FindProperty) -> (found: Option<SyntaxKind>)
        ensures
            found.is_some() == holds_at(self@.tokens, i as int, *property),
            found.is_some() ==> found.unwrap() == found_kind(self@.tokens, i as int, *property),
    {
        match property {
            FindProperty::In(kinds) => self.at_any(i, kinds),
            FindProperty::NotIn(kinds) => {
                if self.at_any(i, kinds).is_none() {
                    Some(self.kind_abs(i))
                } else {
                    None
                }
            },
            FindProperty::KindIs(kind) => {
                if self.at(i, *kind) {
                    Some(self.kind_abs(i))
                } else {
                    None
                }
            },
            FindProperty::KindIsNot(kind) => {
                if !self.at(i, *kind) {
                    Some(self.kind_abs(i))
                } else {
                    None
                }
            },
        }
    }

    /// Looks from the cursor on for the first token with the property and
    /// hands out a bookmark on it, or the bookmark for none.
    pub fn find(&self, find_property: FindProperty) -> (bookmark: ForwardToken)
        ensures
            bookmark == self@.find(find_property),
    {
        proof {
            use_type_invariant(self);
        }
        let mut tind: usize = self.pos;
        while tind < self.tokens.len()
            invariant
                self.pos <= tind <= self.tokens.len(),
                first_holding(self@.tokens, tind as int, find_property) == first_holding(
                    self@.tokens,
                    self@.pos,
                    find_property,
                ),
            decreases self.tokens.len() - tind,
        {
            if let Some(kind) = self.test(tind, &find_property) {
                return ForwardToken { kind, offset: tind - self.pos, state: self.pos };
            }
            tind = tind + 1;
        }
        ForwardToken { kind: SyntaxKind::EOF, offset: 0, state: 0 }
    }

    /// The number of tokens between the cursor and the bookmark.
    pub fn bump_to(&self, forward_token: ForwardToken) -> (bumps: usize)
        ensures
            bumps == self@.distance_to(forward_token),
    {
        if forward_token.kind == SyntaxKind::EOF {
            return 0;
        }
        match forward_token.state.checked_add(forward_token.offset) {
            Some(target) => if target < self.pos {
                0
            } else {
                target - self.pos
            },
            None => 0,
        }
    }
}

} // verus!

//! What a tree sink does with the events: the leaves it makes of the
//! tokens, trivia among them, and the order in which the tree is built.

use crate::green::{depth, leaf_bytes, TreeStep};
use crate::parser::error::ParseError;
use crate::parser::event::{covered, lemma_leaf_position, tokens_fit, Event};
use crate::parser::text_token_source::{
    kept_before, lemma_total_len_take, source_tokens, total_len,
};
use crate::syntax_kind::SyntaxKind;
use crate::parser::token_source::Token;
use vstd::prelude::*;
use vstd::utf8::is_continuation_byte;

verus! {

/// The byte at which the token at place `k` starts.
pub open spec fn start_of(tokens: Seq<Token>, k: int) -> int {
    total_len(tokens.take(k)) as int
}

/// Whether a text may be cut before its byte `i`: no character goes on
/// there.
pub open spec fn boundary(text: Seq<u8>, i: int) -> bool {
    0 <= i <= text.len() && (i == text.len() || !is_continuation_byte(text[i]))
}

/// The tokens cover the text, and each of them ends where a character ends.
pub open spec fn cuts(text: Seq<u8>, tokens: Seq<Token>) -> bool {
    &&& total_len(tokens) == text.len()
    &&& forall|k: int| 0 <= k <= tokens.len() ==> boundary(text, #[trigger] start_of(tokens, k))
}

/// The bytes of the `n` tokens from place `k` on.
pub open spec fn token_text(text: Seq<u8>, tokens: Seq<Token>, k: int, n: int) -> Seq<u8> {
    text.subrange(start_of(tokens, k), start_of(tokens, k + n))
}

/// The first place from `from` on that holds no trivia.
pub open spec fn trivia_end(tokens: Seq<Token>, from: int) -> int
    decreases tokens.len() - from,
{
    if 0 <= from < tokens.len() && tokens[from].syntax_kind.is_trivia_spec() {
        trivia_end(tokens, from + 1)
    } else {
        from
    }
}

/// One leaf for each token from place `from` up to place `to`, of the
/// token's own kind and with its text.
pub open spec fn own_leaves(text: Seq<u8>, tokens: Seq<Token>, from: int, to: int) -> Seq<
    TreeStep,
>
    decreases to - from,
{
    if to <= from {
        Seq::empty()
    } else {
        own_leaves(text, tokens, from, to - 1).push(
            TreeStep::Token(
                tokens[to - 1].syntax_kind.raw(),
                token_text(text, tokens, to - 1, 1),
            ),
        )
    }
}

/// What a sink has done so far.
pub struct SinkModel {
    /// The number of tokens, trivia among them, that became leaves.
    pub pos: int,
    /// The tree so far, as the calls that build it.
    pub steps: Seq<TreeStep>,
    /// The complaints so far, each with the byte that the sink had reached.
    pub errors: Seq<(ParseError, u32)>,
}

/// A sink that has done nothing.
pub open spec fn fresh() -> SinkModel {
    SinkModel { pos: 0, steps: Seq::empty(), errors: Seq::empty() }
}

/// The sink after a `Start` of kind `raw`.
pub open spec fn started(m: SinkModel, raw: u16) -> SinkModel {
    SinkModel { steps: m.steps.push(TreeStep::Start(raw)), ..m }
}

/// The sink after a `Finish`.
pub open spec fn closed_node(m: SinkModel) -> SinkModel {
    SinkModel { steps: m.steps.push(TreeStep::Finish), ..m }
}

/// The place up to which a leaf of `n` tokens reaches that starts at
/// place `t`: `n` places on, or the end of the tokens if that comes first.
pub open spec fn leaf_end(tokens: Seq<Token>, t: int, n: int) -> int {
    if t + n <= tokens.len() {
        t + n
    } else {
        tokens.len() as int
    }
}

/// The sink after a leaf of kind `raw` made of `n` tokens: the trivia
/// before those tokens become leaves of the node that is open, then the
/// tokens become one leaf.
pub open spec fn leafed(text: Seq<u8>, tokens: Seq<Token>, m: SinkModel, raw: u16, n: int) -> SinkModel {
    let t = trivia_end(tokens, m.pos);
    let e = leaf_end(tokens, t, n);
    SinkModel {
        pos: e,
        steps: (m.steps + own_leaves(text, tokens, m.pos, t)).push(
            TreeStep::Token(raw, token_text(text, tokens, t, e - t)),
        ),
        errors: m.errors,
    }
}

/// The sink after a complaint: it is filed under the byte at which the
/// next token that is no leaf yet starts.
pub open spec fn complained(tokens: Seq<Token>, m: SinkModel, msg: ParseError) -> SinkModel {
    SinkModel { errors: m.errors.push((msg, start_of(tokens, m.pos) as u32)), ..m }
}

/// The sink after one event.
pub open spec fn apply(text: Seq<u8>, tokens: Seq<Token>, m: SinkModel, event: Event) -> SinkModel {
    match event {
        Event::Start { kind, .. } => started(m, kind.raw()),
        Event::Finish => closed_node(m),
        Event::Token { kind, n_raw_tokens } => leafed(
            text,
            tokens,
            m,
            kind.raw(),
            n_raw_tokens as int,
        ),
        Event::Error { msg } => complained(tokens, m, msg),
        Event::Tombstone => m,
    }
}

/// The sink after the events, in order.
pub open spec fn run(text: Seq<u8>, tokens: Seq<Token>, events: Seq<Event>) -> SinkModel
    decreases events.len(),
{
    if events.len() == 0 {
        fresh()
    } else {
        apply(text, tokens, run(text, tokens, events.drop_last()), events.last())
    }
}

/// The tree that the events build: before the last event closes the root,
/// every token that is no leaf yet becomes a leaf of the root.
pub open spec fn finished_steps(text: Seq<u8>, tokens: Seq<Token>, events: Seq<Event>) -> Seq<
    TreeStep,
> {
    let m = run(text, tokens, events.drop_last());
    (m.steps + own_leaves(text, tokens, m.pos, tokens.len() as int)).push(TreeStep::Finish)
}

/// The complaints that the events file.
pub open spec fn finished_errors(text: Seq<u8>, tokens: Seq<Token>, events: Seq<Event>) -> Seq<
    (ParseError, u32),
> {
    run(text, tokens, events.drop_last()).errors
}

/// Every part of the tree so far lies within the root: after each step at
/// least one node is open.
pub open spec fn open_tree(steps: Seq<TreeStep>) -> bool {
    forall|k: int| 0 < k <= steps.len() ==> depth(#[trigger] steps.take(k)) >= 1
}

/// A tree that lies within its root starts with the opening of the root.
pub proof fn lemma_open_first(steps: Seq<TreeStep>)
    requires
        open_tree(steps),
        steps.len() > 0,
    ensures
        steps[0] is Start,
{
    let first = steps.take(1);
    assert(first.drop_last() =~= Seq::<TreeStep>::empty());
    assert(depth(first.drop_last()) == 0);
    assert(first.last() == steps[0]);
    assert(depth(first) >= 1);
}

/// Token starts grow with the place.
pub proof fn lemma_start_of(tokens: Seq<Token>, k: int)
    requires
        0 <= k < tokens.len(),
    ensures
        start_of(tokens, k + 1) == start_of(tokens, k) + tokens[k].len,
        start_of(tokens, k + 1) <= total_len(tokens),
        start_of(tokens, 0) == 0,
{
    lemma_total_len_take(tokens, k);
    lemma_total_len_take(tokens, k + 1);
    assert(tokens.take(0) =~= Seq::<Token>::empty());
}

/// What a step adds to the depth and to the bytes of the leaves.
pub proof fn lemma_push_step(steps: Seq<TreeStep>, step: TreeStep)
    ensures
        depth(steps.push(step)) == depth(steps) + crate::green::step_delta(step),
        leaf_bytes(steps.push(step)) == match step {
            TreeStep::Token(_, text) => leaf_bytes(steps) + text,
            _ => leaf_bytes(steps),
        },
        open_tree(steps) && depth(steps.push(step)) >= 1 ==> open_tree(steps.push(step)),
{
    let next = steps.push(step);
    assert(next.drop_last() =~= steps);
    if open_tree(steps) && depth(next) >= 1 {
        assert forall|k: int| 0 < k <= next.len() implies depth(#[trigger] next.take(k)) >= 1 by {
            if k < next.len() {
                assert(next.take(k) =~= steps.take(k));
            } else {
                assert(next.take(k) =~= next);
            }
        }
    }
}

/// Leaves change no depth, and their bytes are the bytes of their tokens.
pub proof fn lemma_own_leaves(
    text: Seq<u8>,
    tokens: Seq<Token>,
    steps: Seq<TreeStep>,
    from: int,
    to: int,
)
    requires
        0 <= from <= to <= tokens.len(),
        total_len(tokens) == text.len(),
    ensures
        own_leaves(text, tokens, from, to).len() == to - from,
        depth(steps + own_leaves(text, tokens, from, to)) == depth(steps),
        leaf_bytes(steps + own_leaves(text, tokens, from, to)) == leaf_bytes(steps)
            + text.subrange(start_of(tokens, from), start_of(tokens, to)),
        start_of(tokens, from) <= start_of(tokens, to) <= text.len(),
        open_tree(steps) && steps.len() > 0 ==> open_tree(
            steps + own_leaves(text, tokens, from, to),
        ),
    decreases to - from,
{
    if to <= from {
        lemma_total_len_take(tokens, from);
        assert(steps + own_leaves(text, tokens, from, to) =~= steps);
        assert(text.subrange(start_of(tokens, from), start_of(tokens, to)) =~= Seq::<u8>::empty());
        assert(leaf_bytes(steps) + Seq::<u8>::empty() =~= leaf_bytes(steps));
        if from < tokens.len() {
            lemma_start_of(tokens, from);
        }
        lemma_total_len_take(tokens, from);
    } else {
        lemma_own_leaves(text, tokens, steps, from, to - 1);
        lemma_start_of(tokens, to - 1);
        let before = steps + own_leaves(text, tokens, from, to - 1);
        let leaf = TreeStep::Token(
            tokens[to - 1].syntax_kind.raw(),
            token_text(text, tokens, to - 1, 1),
        );
        assert(steps + own_leaves(text, tokens, from, to) =~= before.push(leaf));
        lemma_push_step(before, leaf);
        assert(text.subrange(start_of(tokens, from), start_of(tokens, to - 1)) + token_text(
            text,
            tokens,
            to - 1,
            1,
        ) =~= text.subrange(start_of(tokens, from), start_of(tokens, to)));
        assert((leaf_bytes(steps) + text.subrange(
            start_of(tokens, from),
            start_of(tokens, to - 1),
        )) + token_text(text, tokens, to - 1, 1) =~= leaf_bytes(steps) + (text.subrange(
            start_of(tokens, from),
            start_of(tokens, to - 1),
        ) + token_text(text, tokens, to - 1, 1)));
        if open_tree(steps) && steps.len() > 0 {
            assert(steps.take(steps.len() as int) =~= steps);
        }
    }
}

/// Where the trivia from a place on ends.
pub proof fn lemma_trivia_end(tokens: Seq<Token>, from: int)
    requires
        0 <= from <= tokens.len(),
    ensures
        from <= trivia_end(tokens, from) <= tokens.len(),
        forall|k: int|
            from <= k < trivia_end(tokens, from) ==> (#[trigger] tokens[k]).syntax_kind.is_trivia_spec(),
        trivia_end(tokens, from) < tokens.len() ==> !tokens[trivia_end(tokens, from)].syntax_kind.is_trivia_spec(),
    decreases tokens.len() - from,
{
    if from < tokens.len() && tokens[from].syntax_kind.is_trivia_spec() {
        lemma_trivia_end(tokens, from + 1);
    }
}

/// A leaf more, and the leaves still hold the text up to the token that
/// the sink has reached.
pub proof fn lemma_leafed_lossless(
    text: Seq<u8>,
    tokens: Seq<Token>,
    m: SinkModel,
    raw: u16,
    n: int,
)
    requires
        total_len(tokens) == text.len(),
        0 <= m.pos <= tokens.len(),
        0 <= n,
        leaf_bytes(m.steps) == text.take(start_of(tokens, m.pos)),
    ensures
        0 <= leafed(text, tokens, m, raw, n).pos <= tokens.len(),
        leaf_bytes(leafed(text, tokens, m, raw, n).steps) == text.take(
            start_of(tokens, leafed(text, tokens, m, raw, n).pos),
        ),
{
    let t = trivia_end(tokens, m.pos);
    let e = leaf_end(tokens, t, n);
    lemma_trivia_end(tokens, m.pos);
    lemma_own_leaves(text, tokens, m.steps, m.pos, t);
    lemma_start_of_grows(tokens, m.pos, t);
    lemma_start_of_grows(tokens, t, e);
    let before = m.steps + own_leaves(text, tokens, m.pos, t);
    let leaf = TreeStep::Token(raw, token_text(text, tokens, t, e - t));
    lemma_push_step(before, leaf);
    let a = start_of(tokens, m.pos);
    let b = start_of(tokens, t);
    let c = start_of(tokens, e);
    assert(leaf_bytes(before) == text.take(a) + text.subrange(a, b));
    assert(token_text(text, tokens, t, e - t) == text.subrange(b, c));
    assert((text.take(a) + text.subrange(a, b)) + text.subrange(b, c) =~= text.take(c));
}

/// Whatever the events are, the leaves that the sink has made hold the
/// text up to the token that it has reached.
pub proof fn lemma_run_lossless(text: Seq<u8>, tokens: Seq<Token>, events: Seq<Event>)
    requires
        total_len(tokens) == text.len(),
    ensures
        0 <= run(text, tokens, events).pos <= tokens.len(),
        leaf_bytes(run(text, tokens, events).steps) == text.take(
            start_of(tokens, run(text, tokens, events).pos),
        ),
    decreases events.len(),
{
    if events.len() == 0 {
        assert(tokens.take(0) =~= Seq::<Token>::empty());
        assert(text.take(0) =~= Seq::<u8>::empty());
    } else {
        let m = run(text, tokens, events.drop_last());
        lemma_run_lossless(text, tokens, events.drop_last());
        match events.last() {
            Event::Start { kind, .. } => {
                lemma_push_step(m.steps, TreeStep::Start(kind.raw()));
            },
            Event::Finish => {
                lemma_push_step(m.steps, TreeStep::Finish);
            },
            Event::Token { kind, n_raw_tokens } => {
                lemma_leafed_lossless(text, tokens, m, kind.raw(), n_raw_tokens as int);
            },
            _ => {},
        }
    }
}

/// Token starts grow with the place, up to the length of the text.
pub proof fn lemma_start_of_grows(tokens: Seq<Token>, a: int, b: int)
    requires
        0 <= a <= b <= tokens.len(),
    ensures
        0 <= start_of(tokens, a) <= start_of(tokens, b) <= total_len(tokens),
    decreases b - a,
{
    lemma_total_len_take(tokens, b);
    if a < b {
        lemma_start_of_grows(tokens, a, b - 1);
        lemma_start_of(tokens, b - 1);
    }
}

/// Whatever the events are, the leaves of the tree that the sink hands out
/// hold the whole text, byte for byte.
pub proof fn lemma_finished_lossless(text: Seq<u8>, tokens: Seq<Token>, events: Seq<Event>)
    requires
        total_len(tokens) == text.len(),
    ensures
        leaf_bytes(finished_steps(text, tokens, events)) == text,
{
    let m = run(text, tokens, events.drop_last());
    lemma_run_lossless(text, tokens, events.drop_last());
    lemma_own_leaves(text, tokens, m.steps, m.pos, tokens.len() as int);
    let body = m.steps + own_leaves(text, tokens, m.pos, tokens.len() as int);
    lemma_push_step(body, TreeStep::Finish);
    assert(tokens.take(tokens.len() as int) =~= tokens);
    assert(text.take(start_of(tokens, m.pos)) + text.subrange(
        start_of(tokens, m.pos),
        start_of(tokens, tokens.len() as int),
    ) =~= text);
}

/// Whether tokens of the kind with this raw value stay leaves of their
/// own, whatever the parser makes of the text: blanks, comments and line
/// breaks.
pub open spec fn stays_whole(raw: u16) -> bool {
    raw == SyntaxKind::WHITESPACE.raw() || raw == SyntaxKind::COMMENT.raw() || raw
        == SyntaxKind::BLOCK_COMMENT.raw() || raw == SyntaxKind::NEWLINE.raw()
}

/// The leaves among `steps` that are blanks, comments or line breaks, in
/// order.
pub open spec fn whole_leaves(steps: Seq<TreeStep>) -> Seq<TreeStep>
    decreases steps.len(),
{
    if steps.len() == 0 {
        Seq::empty()
    } else {
        match steps.last() {
            TreeStep::Token(raw, _) => if stays_whole(raw) {
                whole_leaves(steps.drop_last()).push(steps.last())
            } else {
                whole_leaves(steps.drop_last())
            },
            _ => whole_leaves(steps.drop_last()),
        }
    }
}

/// The blanks, comments and line breaks of two lists, one after the other.
pub proof fn lemma_whole_concat(a: Seq<TreeStep>, b: Seq<TreeStep>)
    ensures
        whole_leaves(a + b) == whole_leaves(a) + whole_leaves(b),
    decreases b.len(),
{
    if b.len() == 0 {
        assert(a + b =~= a);
        assert(whole_leaves(a) + whole_leaves(b) =~= whole_leaves(a));
    } else {
        lemma_whole_concat(a, b.drop_last());
        assert((a + b).drop_last() =~= a + b.drop_last());
        assert((whole_leaves(a) + whole_leaves(b.drop_last())).push(b.last()) =~= whole_leaves(a)
            + whole_leaves(b.drop_last()).push(b.last()));
    }
}

/// The leaves of a run of tokens, cut in two.
pub proof fn lemma_own_leaves_split(
    text: Seq<u8>,
    tokens: Seq<Token>,
    from: int,
    mid: int,
    to: int,
)
    requires
        from <= mid <= to,
    ensures
        own_leaves(text, tokens, from, to) == own_leaves(text, tokens, from, mid) + own_leaves(
            text,
            tokens,
            mid,
            to,
        ),
    decreases to - mid,
{
    if mid == to {
        assert(own_leaves(text, tokens, from, mid) + own_leaves(text, tokens, mid, to)
            =~= own_leaves(text, tokens, from, to));
    } else {
        lemma_own_leaves_split(text, tokens, from, mid, to - 1);
        let leaf = TreeStep::Token(
            tokens[to - 1].syntax_kind.raw(),
            token_text(text, tokens, to - 1, 1),
        );
        assert((own_leaves(text, tokens, from, mid) + own_leaves(text, tokens, mid, to - 1)).push(
            leaf,
        ) =~= own_leaves(text, tokens, from, mid) + own_leaves(text, tokens, mid, to - 1).push(
            leaf,
        ));
    }
}

/// A leaf that the parser makes of tokens of its own kind, or of the parts
/// of a composite kind, holds no blank, comment or line break that the
/// tokens themselves would not show.
pub proof fn lemma_leaf_whole(text: Seq<u8>, tokens: Seq<Token>, t: int, kind: SyntaxKind, n: int)
    requires
        0 <= t,
        t + n <= tokens.len(),
        1 <= n <= 3,
        n == 1 ==> tokens[t].syntax_kind == kind,
        n >= 2 ==> n == kind.parts().len() && forall|i: int|
            0 <= i < n ==> (#[trigger] tokens[t + i]).syntax_kind == kind.parts()[i],
    ensures
        whole_leaves(own_leaves(text, tokens, t, t + n)) == whole_leaves(
            seq![TreeStep::Token(kind.raw(), token_text(text, tokens, t, n))],
        ),
{
    let leaf = TreeStep::Token(kind.raw(), token_text(text, tokens, t, n));
    assert(seq![leaf].drop_last() =~= Seq::<TreeStep>::empty());
    assert(own_leaves(text, tokens, t, t) =~= Seq::<TreeStep>::empty());
    assert(whole_leaves(own_leaves(text, tokens, t, t)) =~= Seq::<TreeStep>::empty());
    assert(own_leaves(text, tokens, t, t + 1).drop_last() =~= own_leaves(text, tokens, t, t));
    if n == 1 {
        assert(own_leaves(text, tokens, t, t + 1) =~= seq![leaf]);
    } else {
        assert(tokens[t + 0].syntax_kind == kind.parts()[0]);
        assert(tokens[t + 1].syntax_kind == kind.parts()[1]);
        assert(!stays_whole(kind.raw()));
        assert(!stays_whole(kind.parts()[0].raw()));
        assert(!stays_whole(kind.parts()[1].raw()));
        assert(own_leaves(text, tokens, t, t + 2).drop_last() =~= own_leaves(
            text,
            tokens,
            t,
            t + 1,
        ));
        assert(whole_leaves(own_leaves(text, tokens, t, t + 1)) =~= Seq::<TreeStep>::empty());
        assert(whole_leaves(own_leaves(text, tokens, t, t + 2)) =~= Seq::<TreeStep>::empty());
        if n == 3 {
            assert(tokens[t + 2].syntax_kind == kind.parts()[2]);
            assert(!stays_whole(kind.parts()[2].raw()));
            assert(own_leaves(text, tokens, t, t + 3).drop_last() =~= own_leaves(
                text,
                tokens,
                t,
                t + 2,
            ));
            assert(whole_leaves(own_leaves(text, tokens, t, t + 3)) =~= Seq::<TreeStep>::empty());
        }
        assert(whole_leaves(seq![leaf]) =~= Seq::<TreeStep>::empty());
    }
}

/// A step that is no leaf adds no blank, comment or line break.
pub proof fn lemma_whole_push(steps: Seq<TreeStep>, step: TreeStep)
    requires
        !(step is Token),
    ensures
        whole_leaves(steps.push(step)) == whole_leaves(steps),
{
    assert(steps.push(step).drop_last() =~= steps);
}

/// Where the events take tokens that the source has, the blanks, comments
/// and line breaks among the leaves so far are those among the tokens that
/// the sink has passed.
pub proof fn lemma_run_keeps_whole(text: Seq<u8>, tokens: Seq<Token>, events: Seq<Event>)
    requires
        tokens.len() <= usize::MAX,
        tokens_fit(events, source_tokens(tokens)),
    ensures
        0 <= run(text, tokens, events).pos <= tokens.len(),
        kept_before(tokens, run(text, tokens, events).pos) == covered(events),
        whole_leaves(run(text, tokens, events).steps) == whole_leaves(
            own_leaves(text, tokens, 0, run(text, tokens, events).pos),
        ),
    decreases events.len(),
{
    reveal(tokens_fit);
    if events.len() == 0 {
        assert(tokens.take(0) =~= Seq::<Token>::empty());
    } else {
        let front = events.drop_last();
        let m = run(text, tokens, front);
        lemma_run_keeps_whole(text, tokens, front);
        match events.last() {
            Event::Token { kind, n_raw_tokens } => {
                let n = n_raw_tokens as int;
                let seen = source_tokens(tokens);
                let c = covered(front) as int;
                let t = trivia_end(tokens, m.pos);
                lemma_trivia_end(tokens, m.pos);
                lemma_leaf_position(tokens, m.pos, c, kind, n);
                let e = t + n;
                let leaf = TreeStep::Token(kind.raw(), token_text(text, tokens, t, n));
                let trivia = own_leaves(text, tokens, m.pos, t);
                let passed = own_leaves(text, tokens, 0, m.pos);
                let parts = own_leaves(text, tokens, t, e);
                assert(tokens[t + 0] == seen[c + 0].token);
                if n >= 2 {
                    assert forall|i: int| 0 <= i < n implies (#[trigger] tokens[t
                        + i]).syntax_kind == kind.parts()[i] by {
                        assert(tokens[t + i] == seen[c + i].token);
                    }
                }
                lemma_leaf_whole(text, tokens, t, kind, n);
                assert((m.steps + trivia).push(leaf) =~= (m.steps + trivia) + seq![leaf]);
                lemma_whole_concat(m.steps + trivia, seq![leaf]);
                lemma_whole_concat(m.steps, trivia);
                lemma_own_leaves_split(text, tokens, 0, m.pos, t);
                lemma_own_leaves_split(text, tokens, 0, t, e);
                lemma_whole_concat(passed, trivia);
                lemma_whole_concat(passed + trivia, parts);
            },
            Event::Start { kind, .. } => {
                lemma_whole_push(m.steps, TreeStep::Start(kind.raw()));
            },
            Event::Finish => {
                lemma_whole_push(m.steps, TreeStep::Finish);
            },
            _ => {},
        }
    }
}

/// Where the events take tokens that the source has, every blank, comment
/// and line break of the lexer is a leaf of the tree that the sink hands
/// out, once and in its place.
pub proof fn lemma_finished_keeps_whole(text: Seq<u8>, tokens: Seq<Token>, events: Seq<Event>)
    requires
        tokens.len() <= usize::MAX,
        events.len() > 0,
        tokens_fit(events, source_tokens(tokens)),
    ensures
        whole_leaves(finished_steps(text, tokens, events)) == whole_leaves(
            own_leaves(text, tokens, 0, tokens.len() as int),
        ),
{
    reveal(tokens_fit);
    let m = run(text, tokens, events.drop_last());
    lemma_run_keeps_whole(text, tokens, events.drop_last());
    let rest = own_leaves(text, tokens, m.pos, tokens.len() as int);
    lemma_whole_concat(m.steps, rest);
    lemma_own_leaves_split(text, tokens, 0, m.pos, tokens.len() as int);
    lemma_whole_concat(own_leaves(text, tokens, 0, m.pos), rest);
    lemma_whole_push(m.steps + rest, TreeStep::Finish);
}

/// Where the first event opens a node, the first step of the sink opens
/// a node of that kind.
pub proof fn lemma_run_first(text: Seq<u8>, tokens: Seq<Token>, events: Seq<Event>)
    requires
        events.len() > 0,
        events[0] is Start,
    ensures
        run(text, tokens, events).steps.len() > 0,
        run(text, tokens, events).steps[0] == TreeStep::Start(events[0]->Start_kind.raw()),
    decreases events.len(),
{
    let front = run(text, tokens, events.drop_last());
    if events.len() > 1 {
        lemma_run_first(text, tokens, events.drop_last());
        assert(events.drop_last()[0] == events[0]);
        match events.last() {
            Event::Token { kind, n_raw_tokens } => {
                let t = trivia_end(tokens, front.pos);
                assert((front.steps + own_leaves(text, tokens, front.pos, t))[0]
                    == front.steps[0]);
            },
            _ => {},
        }
    } else {
        assert(events.drop_last() =~= Seq::<Event>::empty());
        assert(events.last() == events[0]);
    }
}

/// Where the first event opens a node, the root of the tree that the sink
/// hands out is of that kind.
pub proof fn lemma_finished_first(text: Seq<u8>, tokens: Seq<Token>, events: Seq<Event>)
    requires
        events.len() > 1,
        events[0] is Start,
    ensures
        finished_steps(text, tokens, events)[0] == TreeStep::Start(events[0]->Start_kind.raw()),
{
    lemma_run_first(text, tokens, events.drop_last());
}

} // verus!

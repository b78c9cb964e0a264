//! The events that the parser writes, and what holds of a list of them.

use crate::parser::error::ParseError;
use crate::green::depth;
use crate::parser::text_token_source::{
    joint_at, kept_before, kind_at, lemma_next_kept, lemma_source_tokens, matches_at,
    source_tokens, SourceToken,
};
use crate::parser::text_tree_sink::{SinkView, TextTreeSink};
use crate::parser::token_source::Token;
use crate::parser::tree_sink::{fresh, lemma_trivia_end, run, trivia_end};
use crate::syntax_kind::SyntaxKind;
use vstd::prelude::*;

verus! {

/// One instruction for the builder of the tree.
#[derive(Clone, Copy, Debug, PartialEq, Eq)]
pub enum Event {
    /// A node of kind `kind` opens. With `forward_parent: Some(k)` the node
    /// whose `Start` stands at place `k`, later in the list, opens first
    /// and becomes the parent of this one.
    Start { kind: SyntaxKind, forward_parent: Option<usize> },
    /// The innermost open node closes.
    Finish,
    /// A leaf of kind `kind`, made of the next `n_raw_tokens` tokens of the
    /// source.
    Token { kind: SyntaxKind, n_raw_tokens: u8 },
    /// A complaint, to be reported at the place that the builder has reached.
    Error { msg: ParseError },
    /// Nothing: a `Start` whose kind is not decided yet, or what is left of
    /// an event that was taken back.
    Tombstone,
}

impl Event {
    /// The event that holds a place and says nothing.
    pub fn tombstone() -> (event: Event)
        ensures
            event == Event::Tombstone,
    {
        Event::Tombstone
    }

    /// How many nodes the event opens, counting a closed node as -1.
    pub open spec fn delta(self) -> int {
        match self {
            Event::Start { .. } => 1,
            Event::Finish => -1,
            _ => 0,
        }
    }

    /// How many tokens of the source the event takes.
    pub open spec fn width(self) -> nat {
        match self {
            Event::Token { n_raw_tokens, .. } => n_raw_tokens as nat,
            _ => 0,
        }
    }
}

/// The number of source tokens that the events take, all together.
pub open spec fn covered(events: Seq<Event>) -> nat
    decreases events.len(),
{
    if events.len() == 0 {
        0
    } else {
        covered(events.drop_last()) + events.last().width()
    }
}

/// Whether `n` tokens stand at place `c` of the source, side by side: what
/// one `Token` event of that width needs.
pub open spec fn run_joint(tokens: Seq<SourceToken>, c: int, n: int) -> bool {
    &&& 1 <= n <= 3
    &&& 0 <= c
    &&& c + n <= tokens.len()
    &&& n >= 2 ==> joint_at(tokens, c)
    &&& n >= 3 ==> joint_at(tokens, c + 1)
}

/// Whether a leaf of kind `kind` and width `n` can be made of the tokens at
/// place `c`: one token of that kind, or the parts of that composite kind,
/// side by side.
pub open spec fn leaf_fits(tokens: Seq<SourceToken>, c: int, kind: SyntaxKind, n: int) -> bool {
    &&& run_joint(tokens, c, n)
    &&& n == 1 ==> kind_at(tokens, c) == kind
    &&& n >= 2 ==> n == kind.parts().len() && matches_at(tokens, c, kind)
}

/// Every `Token` event takes tokens that the source has: one token of the
/// event's kind, or the parts of its composite kind, which stood side by
/// side.
#[verifier::opaque]
pub open spec fn tokens_fit(events: Seq<Event>, tokens: Seq<SourceToken>) -> bool
    decreases events.len(),
{
    if events.len() == 0 {
        true
    } else {
        &&& tokens_fit(events.drop_last(), tokens)
        &&& events.last() is Token ==> leaf_fits(
            tokens,
            covered(events.drop_last()) as int,
            events.last()->Token_kind,
            events.last().width() as int,
        )
    }
}

/// The number of nodes that the events leave open: `Start`s minus
/// `Finish`es.
pub open spec fn net(events: Seq<Event>) -> int
    decreases events.len(),
{
    if events.len() == 0 {
        0
    } else {
        net(events.drop_last()) + events.last().delta()
    }
}

/// No `Finish` comes before its `Start`: after each event at least as many
/// nodes have opened as have closed.
pub open spec fn never_negative(events: Seq<Event>) -> bool
    decreases events.len(),
{
    if events.len() == 0 {
        true
    } else {
        never_negative(events.drop_last()) && net(events) >= 0
    }
}

/// The events open and close whole nodes: no `Finish` comes too early, and
/// none is missing at the end.
#[verifier::opaque]
pub open spec fn closed(events: Seq<Event>) -> bool {
    never_negative(events) && net(events) == 0
}

/// `after` is `before` with whole nodes and leaves added at its end.
pub open spec fn extends(before: Seq<Event>, after: Seq<Event>) -> bool {
    &&& before.len() <= after.len()
    &&& after.take(before.len() as int) == before
    &&& closed(after.skip(before.len() as int))
}

/// The marker at place `m` is still open, and what follows it is whole.
pub open spec fn pending(events: Seq<Event>, m: int) -> bool {
    &&& 0 <= m < events.len()
    &&& events[m] is Tombstone
    &&& closed(events.skip(m + 1))
}

/// The balance and the tokens taken of two lists add up, and two lists
/// that never close more than they opened make one such list.
pub proof fn lemma_net_concat(a: Seq<Event>, b: Seq<Event>)
    ensures
        net(a + b) == net(a) + net(b),
        covered(a + b) == covered(a) + covered(b),
        never_negative(a) && never_negative(b) && net(a) >= 0 ==> never_negative(a + b),
    decreases b.len(),
{
    reveal(closed);
    reveal(tokens_fit);
    if b.len() == 0 {
        assert(a + b =~= a);
    } else {
        assert((a + b).drop_last() =~= a + b.drop_last());
        lemma_net_concat(a, b.drop_last());
    }
}

/// Changing one event into another of the same `delta` and `width` changes
/// neither the balance nor the tokens taken.
pub proof fn lemma_update_same(events: Seq<Event>, i: int, e: Event, tokens: Seq<SourceToken>)
    requires
        0 <= i < events.len(),
        !(e is Token),
        !(events[i] is Token),
    ensures
        covered(events.update(i, e)) == covered(events),
        tokens_fit(events.update(i, e), tokens) == tokens_fit(events, tokens),
        e.delta() == events[i].delta() ==> net(events.update(i, e)) == net(events)
            && never_negative(events.update(i, e)) == never_negative(events),
    decreases events.len(),
{
    reveal(closed);
    reveal(tokens_fit);
    let u = events.update(i, e);
    if i == events.len() - 1 {
        assert(u.drop_last() =~= events.drop_last());
    } else {
        assert(u.drop_last() =~= events.drop_last().update(i, e));
        lemma_update_same(events.drop_last(), i, e, tokens);
    }
}

/// Completing the marker at the end of `a` wraps what was added since in one
/// node.
pub proof fn lemma_extends_node(a: Seq<Event>, b: Seq<Event>, kind: SyntaxKind)
    requires
        pending(b, a.len() as int),
        b.take(a.len() as int) == a,
    ensures
        extends(
            a,
            b.update(a.len() as int, Event::Start { kind, forward_parent: None }).push(
                Event::Finish,
            ),
        ),
{
    reveal(closed);
    reveal(tokens_fit);
    let n = a.len() as int;
    let start = Event::Start { kind, forward_parent: None };
    let c = b.update(n, start).push(Event::Finish);
    let inner = b.skip(n + 1);
    assert(c.take(n) =~= b.take(n));
    assert(c.skip(n) =~= (seq![start] + inner).push(Event::Finish));
    let first = seq![start];
    assert(first.drop_last() =~= Seq::<Event>::empty());
    assert(net(first.drop_last()) == 0);
    assert(never_negative(first.drop_last()));
    assert(net(first) == 1);
    assert(never_negative(first));
    lemma_net_concat(first, inner);
    assert((first + inner).push(Event::Finish).drop_last() =~= first + inner);
}

/// What holds after `complete` for the marker at place `m`, in the terms in
/// which a caller holds the events before `m`.
pub proof fn lemma_pending_node(b: Seq<Event>, m: int, kind: SyntaxKind)
    requires
        pending(b, m),
    ensures
        extends(
            b.take(m),
            b.update(m, Event::Start { kind, forward_parent: None }).push(Event::Finish),
        ),
{
    reveal(closed);
    reveal(tokens_fit);
    assert(b.take(m).take(m) =~= b.take(m));
    lemma_extends_node(b.take(m), b, kind);
}

/// The events are one node: the first opens it, the last closes it, and it
/// stays open in between.
pub open spec fn rooted(events: Seq<Event>) -> bool {
    &&& events.len() > 0
    &&& events[0] is Start
    &&& net(events) == 0
    &&& forall|k: int| 0 < k < events.len() ==> net(#[trigger] events.take(k)) >= 1
}

/// No event is a tombstone, and no `Start` waits for a parent.
pub open spec fn plain(events: Seq<Event>) -> bool {
    forall|k: int|
        0 <= k < events.len() ==> match #[trigger] events[k] {
            Event::Tombstone => false,
            Event::Start { forward_parent, .. } => forward_parent is None,
            _ => true,
        }
}

/// The place that the link `link` of the `Start` at place `from` leads to:
/// a `Start` later in the list. Any other link is not followed.
pub open spec fn link_target(events: Seq<Event>, from: int, link: Option<usize>) -> Option<int> {
    match link {
        Some(k) => if from < k < events.len() && events[k as int] is Start {
            Some(k as int)
        } else {
            None
        },
        None => None,
    }
}

/// The kinds of the forward parents that are reached from place `from`
/// through `link`, the nearest first.
pub open spec fn chain_kinds(events: Seq<Event>, from: int, link: Option<usize>) -> Seq<
    SyntaxKind,
>
    decreases events.len() - from,
{
    match link_target(events, from, link) {
        Some(k) => seq![events[k]->Start_kind] + chain_kinds(
            events.update(k, Event::Tombstone),
            k,
            events[k]->Start_forward_parent,
        ),
        None => Seq::empty(),
    }
}

/// The events after the forward parents that are reached from place `from`
/// through `link` were taken out: each of them is a tombstone.
pub open spec fn chain_taken(events: Seq<Event>, from: int, link: Option<usize>) -> Seq<Event>
    decreases events.len() - from,
{
    match link_target(events, from, link) {
        Some(k) => chain_taken(
            events.update(k, Event::Tombstone),
            k,
            events[k]->Start_forward_parent,
        ),
        None => events,
    }
}

/// A `Start` for each of `kinds`, the last kind first.
pub open spec fn opened(kinds: Seq<SyntaxKind>) -> Seq<Event> {
    Seq::new(
        kinds.len(),
        |t: int| Event::Start { kind: kinds[kinds.len() - 1 - t], forward_parent: None },
    )
}

/// The events from place `i` on as the tree builder must see them: each
/// `Start` comes after its forward parents, the outermost first; a `Start`
/// that was taken as a forward parent does not come again; tombstones are
/// left out.
pub open spec fn resolved_from(events: Seq<Event>, i: int) -> Seq<Event>
    decreases events.len() - i,
{
    if i < 0 || i >= events.len() {
        Seq::empty()
    } else {
        match events[i] {
            Event::Start { kind, forward_parent } => {
                let rest = chain_taken(events, i, forward_parent);
                if rest.len() == events.len() {
                    opened(seq![kind] + chain_kinds(events, i, forward_parent)) + resolved_from(
                        rest,
                        i + 1,
                    )
                } else {
                    Seq::empty()
                }
            },
            Event::Tombstone => resolved_from(events, i + 1),
            _ => seq![events[i]] + resolved_from(events, i + 1),
        }
    }
}

/// The events as the tree builder must see them.
pub open spec fn resolved(events: Seq<Event>) -> Seq<Event> {
    resolved_from(events, 0)
}

/// The balance of a list with one event changed.
pub proof fn lemma_net_update(events: Seq<Event>, i: int, e: Event)
    requires
        0 <= i < events.len(),
    ensures
        net(events.update(i, e)) == net(events) + e.delta() - events[i].delta(),
    decreases events.len(),
{
    let u = events.update(i, e);
    if i == events.len() - 1 {
        assert(u.drop_last() =~= events.drop_last());
    } else {
        assert(u.drop_last() =~= events.drop_last().update(i, e));
        lemma_net_update(events.drop_last(), i, e);
    }
}

/// The balance of the events from place `j` on, by the event at `j`.
pub proof fn lemma_net_skip(events: Seq<Event>, j: int)
    requires
        0 <= j < events.len(),
    ensures
        net(events.skip(j)) == events[j].delta() + net(events.skip(j + 1)),
        net(events.take(j)) + net(events.skip(j)) == net(events),
        net(events.take(j + 1)) == net(events.take(j)) + events[j].delta(),
        covered(events.take(j + 1)) == covered(events.take(j)) + events[j].width(),
{
    let one = seq![events[j]];
    assert(one.drop_last() =~= Seq::<Event>::empty());
    assert(net(one.drop_last()) == 0);
    assert(net(one) == events[j].delta());
    assert(events.skip(j) =~= one + events.skip(j + 1));
    lemma_net_concat(one, events.skip(j + 1));
    assert(events =~= events.take(j) + events.skip(j));
    lemma_net_concat(events.take(j), events.skip(j));
    assert(events.take(j + 1).drop_last() =~= events.take(j));
}

/// The balance of the events from place `j` on, after the event at place
/// `k` became a tombstone.
pub proof fn lemma_net_skip_update(events: Seq<Event>, k: int, j: int)
    requires
        0 <= k < events.len(),
        0 <= j <= events.len(),
    ensures
        net(events.update(k, Event::Tombstone).skip(j)) == if j <= k {
            net(events.skip(j)) - events[k].delta()
        } else {
            net(events.skip(j))
        },
{
    let u = events.update(k, Event::Tombstone);
    if j <= k {
        assert(u.skip(j) =~= events.skip(j).update(k - j, Event::Tombstone));
        lemma_net_update(events.skip(j), k - j, Event::Tombstone);
    } else {
        assert(u.skip(j) =~= events.skip(j));
    }
}

/// What taking out a chain of forward parents does: only `Start`s after
/// `from` become tombstones, as many as the chain has kinds.
pub proof fn lemma_chain(events: Seq<Event>, from: int, link: Option<usize>)
    requires
        0 <= from < events.len(),
    ensures
        chain_taken(events, from, link).len() == events.len(),
        forall|j: int|
            0 <= j < events.len() ==> #[trigger] chain_taken(events, from, link)[j] == events[j]
                || (j > from && events[j] is Start && chain_taken(events, from, link)[j]
                is Tombstone),
        forall|j: int|
            0 <= j <= events.len() ==> net(#[trigger] chain_taken(events, from, link).skip(j))
                <= net(events.skip(j)),
        forall|j: int|
            0 <= j <= from + 1 ==> net(#[trigger] chain_taken(events, from, link).skip(j)) == net(
                events.skip(j),
            ) - chain_kinds(events, from, link).len(),
    decreases events.len() - from,
{
    match link_target(events, from, link) {
        Some(k) => {
            let next = events.update(k, Event::Tombstone);
            let link2 = events[k]->Start_forward_parent;
            lemma_chain(next, k, link2);
            let taken = chain_taken(events, from, link);
            assert(taken == chain_taken(next, k, link2));
            assert forall|j: int| 0 <= j <= events.len() implies net(#[trigger] taken.skip(j))
                <= net(events.skip(j)) by {
                lemma_net_skip_update(events, k, j);
            }
            assert forall|j: int| 0 <= j <= from + 1 implies net(#[trigger] taken.skip(j)) == net(
                events.skip(j),
            ) - chain_kinds(events, from, link).len() by {
                lemma_net_skip_update(events, k, j);
            }
        },
        None => {},
    }
}

/// Inside a node, what is still to come closes more than it opens.
pub proof fn lemma_rooted_suffix(events: Seq<Event>, j: int)
    requires
        rooted(events),
        0 < j < events.len(),
    ensures
        net(events.skip(j)) <= -1,
{
    lemma_net_skip(events, j);
}

/// A node around a whole list of events is rooted.
pub proof fn lemma_node_rooted(events: Seq<Event>)
    requires
        events.len() >= 2,
        events[0] is Start,
        events.last() is Finish,
        closed(events.subrange(1, events.len() - 1)),
    ensures
        rooted(events),
{
    reveal(closed);
    let inner = events.subrange(1, events.len() - 1);
    let first = seq![events[0]];
    assert(first.drop_last() =~= Seq::<Event>::empty());
    assert(net(first.drop_last()) == 0);
    assert(net(first) == 1);
    assert forall|k: int| 0 < k < events.len() implies net(#[trigger] events.take(k)) >= 1 by {
        assert(events.take(k) =~= first + inner.take(k - 1));
        lemma_net_concat(first, inner.take(k - 1));
        crate::parser::marker::lemma_never_negative_take(inner, k - 1);
        lemma_nonnegative(inner.take(k - 1));
    }
    assert(events.drop_last() =~= events.take(events.len() - 1));
    assert(events.take(events.len() - 1) =~= first + inner);
    lemma_net_concat(first, inner);
}

/// A list that is one node ends with the `Finish` of that node.
pub proof fn lemma_rooted_last(events: Seq<Event>)
    requires
        rooted(events),
    ensures
        events.len() >= 2,
        events.last() is Finish,
{
    assert(events.drop_last() =~= events.take(events.len() - 1));
    if events.len() == 1 {
        assert(events.drop_last() =~= Seq::<Event>::empty());
        assert(net(events.drop_last()) == 0);
    }
}

/// A list that never closes more than it opened leaves nothing owed.
pub proof fn lemma_nonnegative(events: Seq<Event>)
    requires
        never_negative(events),
    ensures
        net(events) >= 0,
{
}

/// A `Start` without a forward parent is handed on as it is.
pub proof fn lemma_resolve_start(events: Seq<Event>, i: int)
    requires
        0 <= i < events.len(),
        events[i] is Start,
        events[i]->Start_forward_parent is None,
    ensures
        resolved_from(events, i) == seq![events[i]] + resolved_from(events, i + 1),
{
    let kind = events[i]->Start_kind;
    assert(chain_kinds(events, i, None) =~= Seq::<SyntaxKind>::empty());
    assert(opened(seq![kind] + Seq::<SyntaxKind>::empty()) =~= seq![events[i]]);
}

/// What `opened` makes: `Start`s only, one for each kind.
pub proof fn lemma_opened(kinds: Seq<SyntaxKind>, t: int)
    requires
        0 <= t <= kinds.len(),
    ensures
        opened(kinds).len() == kinds.len(),
        plain(opened(kinds)),
        net(opened(kinds).take(t)) == t,
        covered(opened(kinds).take(t)) == 0,
    decreases t,
{
    if t > 0 {
        lemma_opened(kinds, t - 1);
        assert(opened(kinds).take(t).drop_last() =~= opened(kinds).take(t - 1));
    }
}

/// Events that are no leaves may follow without a word from the source.
pub proof fn lemma_fit_quiet(a: Seq<Event>, b: Seq<Event>, tokens: Seq<SourceToken>)
    requires
        tokens_fit(a, tokens),
        forall|k: int| 0 <= k < b.len() ==> !(#[trigger] b[k] is Token),
    ensures
        tokens_fit(a + b, tokens),
        covered(a + b) == covered(a),
    decreases b.len(),
{
    reveal(tokens_fit);
    if b.len() == 0 {
        assert(a + b =~= a);
    } else {
        lemma_fit_quiet(a, b.drop_last(), tokens);
        assert((a + b).drop_last() =~= a + b.drop_last());
    }
}

/// What holds while the events are resolved: `out` is what the events
/// before place `i` gave, and `cur` holds the events with the forward
/// parents taken out that were needed so far.
pub open spec fn resolving(origin: Seq<Event>, cur: Seq<Event>, out: Seq<Event>, i: int) -> bool {
    &&& rooted(origin)
    &&& cur.len() == origin.len()
    &&& 0 <= i <= cur.len()
    &&& out + resolved_from(cur, i) == resolved(origin)
    &&& plain(out)
    &&& net(out) + net(cur.skip(i)) == 0
    &&& forall|j: int| i <= j < cur.len() && 0 < j ==> net(#[trigger] cur.skip(j)) <= -1
    &&& forall|k: int| 0 < k < out.len() ==> net(#[trigger] out.take(k)) >= 1
    &&& i == 0 ==> out.len() == 0 && cur == origin
    &&& i > 0 ==> out.len() > 0 && out[0] is Start
    &&& covered(out) == covered(origin.take(i))
    &&& forall|tokens: Seq<SourceToken>|
        tokens_fit(origin.take(i), tokens) ==> #[trigger] tokens_fit(out, tokens)
    &&& forall|j: int|
        i <= j < cur.len() ==> #[trigger] cur[j] == origin[j] || (origin[j] is Start
            && cur[j] is Tombstone)
}

/// Resolving starts with nothing given.
pub proof fn lemma_resolving_start(origin: Seq<Event>)
    requires
        rooted(origin),
    ensures
        resolving(origin, origin, Seq::empty(), 0),
{
    reveal(tokens_fit);
    let out = Seq::<Event>::empty();
    assert(out + resolved_from(origin, 0) =~= resolved(origin));
    assert(origin.skip(0) =~= origin);
    assert forall|j: int| 0 <= j < origin.len() && 0 < j implies net(#[trigger] origin.skip(j))
        <= -1 by {
        lemma_rooted_suffix(origin, j);
    }
    assert(origin.take(0) =~= out);
}

/// Resolving ends with a list that is one node and takes the same tokens.
pub proof fn lemma_resolving_end(origin: Seq<Event>, cur: Seq<Event>, out: Seq<Event>)
    requires
        resolving(origin, cur, out, origin.len() as int),
    ensures
        out == resolved(origin),
        plain(out),
        rooted(out),
        covered(out) == covered(origin),
        forall|tokens: Seq<SourceToken>|
            tokens_fit(origin, tokens) ==> #[trigger] tokens_fit(out, tokens),
{
    assert(out + resolved_from(cur, origin.len() as int) =~= out);
    assert(cur.skip(origin.len() as int) =~= Seq::<Event>::empty());
    assert(origin.take(origin.len() as int) =~= origin);
}

/// One step of resolving, over an event that is given on as it is or left
/// out.
pub proof fn lemma_resolving_step(origin: Seq<Event>, cur: Seq<Event>, out: Seq<Event>, i: int)
    requires
        resolving(origin, cur, out, i),
        i < cur.len(),
        !(cur[i] is Start),
    ensures
        resolving(
            origin,
            cur,
            if cur[i] is Tombstone {
                out
            } else {
                out.push(cur[i])
            },
            i + 1,
        ),
{
    reveal(tokens_fit);
    let e = cur[i];
    lemma_net_skip(cur, i);
    lemma_net_skip(origin, i);
    assert(origin.take(i + 1).drop_last() =~= origin.take(i));
    assert(i > 0);
    if e is Tombstone {
    } else {
        let next = out.push(e);
        assert(next + resolved_from(cur, i + 1) =~= out + (seq![e] + resolved_from(cur, i + 1)));
        assert(next.drop_last() =~= out);
        assert forall|k: int| 0 < k < next.len() implies net(#[trigger] next.take(k)) >= 1 by {
            if k < out.len() {
                assert(next.take(k) =~= out.take(k));
            } else {
                assert(next.take(k) =~= out);
                assert(net(cur.skip(i)) <= -1);
            }
        }
        assert(e == origin[i]);
        assert forall|tokens: Seq<SourceToken>|
            tokens_fit(origin.take(i + 1), tokens) implies #[trigger] tokens_fit(next, tokens) by {
            assert(tokens_fit(origin.take(i), tokens));
            assert(tokens_fit(out, tokens));
        }
    }
}

/// One step of resolving, over a `Start`: it is given on after its forward
/// parents, which are taken out of the events to come.
pub proof fn lemma_resolving_start_step(
    origin: Seq<Event>,
    cur: Seq<Event>,
    out: Seq<Event>,
    i: int,
)
    requires
        resolving(origin, cur, out, i),
        i < cur.len(),
        cur[i] is Start,
    ensures
        resolving(
            origin,
            chain_taken(cur, i, cur[i]->Start_forward_parent),
            out + opened(
                seq![cur[i]->Start_kind] + chain_kinds(cur, i, cur[i]->Start_forward_parent),
            ),
            i + 1,
        ),
{
    reveal(tokens_fit);
    let link = cur[i]->Start_forward_parent;
    let kinds = seq![cur[i]->Start_kind] + chain_kinds(cur, i, link);
    let taken = chain_taken(cur, i, link);
    let starts = opened(kinds);
    let next = out + starts;
    lemma_chain(cur, i, link);
    lemma_net_skip(cur, i);
    lemma_net_skip(origin, i);
    lemma_opened(kinds, kinds.len() as int);
    assert(starts.take(kinds.len() as int) =~= starts);
    lemma_net_concat(out, starts);
    assert(origin.take(i + 1).drop_last() =~= origin.take(i));
    assert(next + resolved_from(taken, i + 1) =~= out + (starts + resolved_from(taken, i + 1)));
    assert(cur[i] == origin[i]);
    assert(net(out) >= 0) by {
        if i > 0 {
            assert(net(cur.skip(i)) <= -1);
        } else {
            assert(cur.skip(0) =~= cur);
        }
    }
    assert forall|k: int| 0 < k < next.len() implies net(#[trigger] next.take(k)) >= 1 by {
        if k < out.len() {
            assert(next.take(k) =~= out.take(k));
        } else {
            assert(next.take(k) =~= out + starts.take(k - out.len()));
            lemma_opened(kinds, k - out.len());
            lemma_net_concat(out, starts.take(k - out.len()));
            if out.len() > 0 {
                assert(net(cur.skip(i)) <= -1);
            }
        }
    }
    assert forall|tokens: Seq<SourceToken>|
        tokens_fit(origin.take(i + 1), tokens) implies #[trigger] tokens_fit(next, tokens) by {
        assert(tokens_fit(origin.take(i), tokens));
        assert(tokens_fit(out, tokens));
        lemma_fit_quiet(out, starts, tokens);
    }
    assert(covered(next) == covered(out)) by {
        lemma_net_concat(out, starts);
    }
    assert(plain(next));
    assert(next[0] is Start) by {
        if out.len() == 0 {
            assert(next[0] == starts[0]);
        }
    }
    assert forall|j: int| i + 1 <= j < taken.len() && 0 < j implies net(#[trigger] taken.skip(j))
        <= -1 by {
        assert(net(cur.skip(j)) <= -1);
    }
    assert forall|j: int| i + 1 <= j < taken.len() implies #[trigger] taken[j] == origin[j] || (
    origin[j] is Start && taken[j] is Tombstone) by {
        assert(cur[j] == origin[j] || (origin[j] is Start && cur[j] is Tombstone));
    }
}

/// Takes the forward parents of the `Start` at place `i` out of the events
/// and hands out their kinds after the kind of that `Start`, the nearest
/// parent first.
fn take_chain(
    events: &mut Vec<Event>,
    i: usize,
    kind: SyntaxKind,
    forward_parent: Option<usize>,
) -> (kinds: Vec<SyntaxKind>)
    requires
        i < old(events).len(),
    ensures
        kinds@ == seq![kind] + chain_kinds(old(events)@, i as int, forward_parent),
        final(events)@ == chain_taken(old(events)@, i as int, forward_parent),
{
    let mut kinds: Vec<SyntaxKind> = Vec::new();
    kinds.push(kind);
    let mut idx = i;
    let mut link = forward_parent;
    loop
        invariant_except_break
            idx < events.len(),
            kinds@ + chain_kinds(events@, idx as int, link) == seq![kind] + chain_kinds(
                old(events)@,
                i as int,
                forward_parent,
            ),
            chain_taken(events@, idx as int, link) == chain_taken(
                old(events)@,
                i as int,
                forward_parent,
            ),
        ensures
            kinds@ == seq![kind] + chain_kinds(old(events)@, i as int, forward_parent),
            events@ == chain_taken(old(events)@, i as int, forward_parent),
        decreases events.len() - idx,
    {
        let ghost before = events@;
        let ghost kinds_before = kinds@;
        match link {
            Some(k) => {
                if idx < k && k < events.len() {
                    match events[k] {
                        Event::Start { kind: parent_kind, forward_parent: next } => {
                            kinds.push(parent_kind);
                            events.set(k, Event::Tombstone);
                            proof {
                                assert(kinds@ + chain_kinds(events@, k as int, next)
                                    =~= kinds_before + (seq![parent_kind] + chain_kinds(
                                    events@,
                                    k as int,
                                    next,
                                )));
                            }
                            idx = k;
                            link = next;
                        },
                        _ => {
                            proof {
                                assert(kinds@ + Seq::<SyntaxKind>::empty() =~= kinds@);
                            }
                            break ;
                        },
                    }
                } else {
                    proof {
                        assert(kinds@ + Seq::<SyntaxKind>::empty() =~= kinds@);
                    }
                    break ;
                }
            },
            None => {
                proof {
                    assert(kinds@ + Seq::<SyntaxKind>::empty() =~= kinds@);
                }
                break ;
            },
        }
    }
    kinds
}

/// Writes a `Start` for each of `kinds`, the last kind first.
fn push_opened(out: &mut Vec<Event>, kinds: &Vec<SyntaxKind>)
    ensures
        final(out)@ == old(out)@ + opened(kinds@),
{
    let mut j = kinds.len();
    while j > 0
        invariant
            0 <= j <= kinds.len(),
            out@ == old(out)@ + opened(kinds@).take(kinds.len() - j),
        decreases j,
    {
        j = j - 1;
        out.push(Event::Start { kind: kinds[j], forward_parent: None });
        proof {
            assert(out@ =~= old(out)@ + opened(kinds@).take(kinds.len() - j));
        }
    }
    proof {
        assert(opened(kinds@).take(kinds.len() as int) =~= opened(kinds@));
    }
}

/// Puts the events in the order in which a tree is built: every `Start`
/// after its forward parents, tombstones left out. The events must be one
/// node. What comes out is one node again, without tombstones or links, and
/// takes the same tokens of the source.
pub fn resolve(events: Vec<Event>) -> (steps: Vec<Event>)
    requires
        rooted(events@),
    ensures
        steps@ == resolved(events@),
        plain(steps@),
        rooted(steps@),
        covered(steps@) == covered(events@),
        forall|tokens: Seq<SourceToken>|
            tokens_fit(events@, tokens) ==> #[trigger] tokens_fit(steps@, tokens),
{
    let ghost origin = events@;
    let mut cur = events;
    let mut out: Vec<Event> = Vec::new();
    let n = cur.len();
    let mut i: usize = 0;
    proof {
        lemma_resolving_start(origin);
    }
    while i < n
        invariant
            n == origin.len(),
            resolving(origin, cur@, out@, i as int),
        decreases n - i,
    {
        let e = cur[i];
        match e {
            Event::Start { kind, forward_parent } => {
                proof {
                    lemma_resolving_start_step(origin, cur@, out@, i as int);
                }
                let kinds = take_chain(&mut cur, i, kind, forward_parent);
                push_opened(&mut out, &kinds);
            },
            Event::Tombstone => {
                proof {
                    lemma_resolving_step(origin, cur@, out@, i as int);
                }
            },
            other => {
                proof {
                    lemma_resolving_step(origin, cur@, out@, i as int);
                }
                out.push(other);
            },
        }
        i = i + 1;
    }
    proof {
        lemma_resolving_end(origin, cur@, out@);
    }
    out
}

/// What `tokens_fit` says of the `Token` event at place `j`.
pub proof fn lemma_tokens_fit_at(events: Seq<Event>, tokens: Seq<SourceToken>, j: int)
    requires
        tokens_fit(events, tokens),
        0 <= j < events.len(),
    ensures
        tokens_fit(events.take(j), tokens),
        events[j] is Token ==> leaf_fits(
            tokens,
            covered(events.take(j)) as int,
            events[j]->Token_kind,
            events[j].width() as int,
        ),
    decreases events.len(),
{
    reveal(tokens_fit);
    if j == events.len() - 1 {
        assert(events.take(j) =~= events.drop_last());
    } else {
        lemma_tokens_fit_at(events.drop_last(), tokens, j);
        assert(events.drop_last().take(j) =~= events.take(j));
    }
}

/// Where the tokens of a leaf stand among all tokens of the lexer: right
/// after the trivia under the sink's cursor, one after the other.
pub proof fn lemma_leaf_position(raw: Seq<Token>, pos: int, c: int, kind: SyntaxKind, n: int)
    requires
        raw.len() <= usize::MAX,
        0 <= pos <= raw.len(),
        kept_before(raw, pos) == c,
        leaf_fits(source_tokens(raw), c, kind, n),
    ensures
        trivia_end(raw, pos) + n <= raw.len(),
        kept_before(raw, trivia_end(raw, pos) + n) == c + n,
        forall|i: int|
            0 <= i < n ==> #[trigger] raw[trivia_end(raw, pos) + i] == source_tokens(raw)[c
                + i].token,
{
    let seen = source_tokens(raw);
    let t = trivia_end(raw, pos);
    lemma_trivia_end(raw, pos);
    lemma_source_tokens(raw);
    lemma_next_kept(raw, pos, c, t);
    if n >= 2 {
        assert(seen[c + 1].index == t + 1);
        lemma_next_kept(raw, t + 1, c + 1, t + 1);
        if n >= 3 {
            assert(seen[c + 2].index == t + 2);
            lemma_next_kept(raw, t + 2, c + 2, t + 2);
        }
    }
}

/// Hands the events to the sink in the order in which the tree is built.
/// The events must be one node and take tokens that the sink has.
pub fn process(sink: &mut TextTreeSink, events: Vec<Event>)
    requires
        old(sink).wf(),
        old(sink)@.model == fresh(),
        rooted(events@),
        tokens_fit(events@, source_tokens(old(sink)@.tokens)),
    ensures
        final(sink).wf(),
        final(sink)@ == (SinkView {
            model: run(old(sink)@.text, old(sink)@.tokens, resolved(events@)),
            ..old(sink)@
        }),
        final(sink)@.model.steps.len() > 0,
        depth(final(sink)@.model.steps) == 0,
        rooted(resolved(events@)),
        plain(resolved(events@)),
        covered(resolved(events@)) == covered(events@),
        tokens_fit(resolved(events@), source_tokens(old(sink)@.tokens)),
{
    let steps = resolve(events);
    let ghost text = sink@.text;
    let ghost tokens = sink@.tokens;
    let mut j: usize = 0;
    proof {
        sink.lemma_wf();
        assert(steps@.take(0) =~= Seq::<Event>::empty());
        assert(tokens.take(0) =~= Seq::<Token>::empty());
    }
    while j < steps.len()
        invariant
            0 <= j <= steps.len(),
            sink.wf(),
            sink@ == (SinkView { model: run(text, tokens, steps@.take(j as int)), ..old(sink)@ }),
            text == old(sink)@.text,
            tokens == old(sink)@.tokens,
            tokens.len() <= usize::MAX,
            depth(sink@.model.steps) == net(steps@.take(j as int)),
            (j == 0) == (sink@.model.steps.len() == 0),
            0 <= sink@.model.pos <= tokens.len(),
            kept_before(tokens, sink@.model.pos) == covered(steps@.take(j as int)),
            rooted(steps@),
            tokens_fit(steps@, source_tokens(tokens)),
        decreases steps.len() - j,
    {
        let step = steps[j];
        proof {
            lemma_net_skip(steps@, j as int);
            assert(steps@.take(j + 1).drop_last() =~= steps@.take(j as int));
            lemma_tokens_fit_at(steps@, source_tokens(tokens), j as int);
            if step is Token {
                lemma_leaf_position(
                    tokens,
                    sink@.model.pos,
                    covered(steps@.take(j as int)) as int,
                    step->Token_kind,
                    step.width() as int,
                );
            }
        }
        match step {
            Event::Start { kind, .. } => {
                sink.start_node(kind);
            },
            Event::Finish => {
                sink.finish_node();
            },
            Event::Token { kind, n_raw_tokens } => {
                sink.token(kind, n_raw_tokens);
            },
            Event::Error { msg } => {
                sink.error(msg);
            },
            Event::Tombstone => {},
        }
        proof {
            sink.lemma_wf();
        }
        j = j + 1;
    }
    proof {
        assert(steps@.take(j as int) =~= steps@);
    }
}

} // verus!

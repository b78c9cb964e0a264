//! Markers: places in the event list where a node opens.

use crate::parser::event::{
    closed, lemma_net_concat, lemma_pending_node, lemma_update_same, net, never_negative,
    pending, tokens_fit, Event,
};
use crate::parser::{Parser, ParserView};
use crate::syntax_kind::SyntaxKind;
use vstd::prelude::*;

verus! {

/// The place of a `Start` whose kind is not decided yet.
#[derive(Debug)]
pub struct Marker {
    /// The place of the marker in the event list.
    pub pos: usize,
}

/// The places of the `Start` and of the `Finish` of a node that was
/// completed, and its kind.
#[derive(Clone, Copy, Debug)]
pub struct CompletedMarker {
    /// The place of the node's `Start`.
    pub start_pos: usize,
    /// The place of the node's `Finish`.
    pub finish_pos: usize,
    /// The kind of the node.
    pub kind: SyntaxKind,
}

impl Marker {
    /// The marker at place `pos`.
    pub fn new(pos: usize) -> (marker: Marker)
        ensures
            marker.pos == pos,
    {
        Marker { pos }
    }
}

impl Marker {
    /// Completes the marker: its place takes a `Start` of kind `kind`, and a
    /// `Finish` is written at the end. The marker must be open, and what
    /// was written after it must be whole.
    pub fn complete(self, p: &mut Parser, kind: SyntaxKind) -> (completed: CompletedMarker)
        requires
            old(p)@.wf(),
            pending(old(p)@.events, self.pos as int),
        ensures
            final(p)@ == old(p)@.complete(self.pos as int, kind),
            final(p)@.wf(),
            completed.start_pos == self.pos,
            completed.kind == kind,
            just_completed(final(p)@.events, completed),
            forall|m: int|
                m < self.pos && #[trigger] pending(old(p)@.events, m) ==> pending(
                    final(p)@.events,
                    m,
                ),
    {
        let finish_pos = p.events.len();
        p.events.set(self.pos, Event::Start { kind, forward_parent: None });
        p.events.push(Event::Finish);
        proof {
            lemma_complete(old(p)@, self.pos as int, kind);
        }
        CompletedMarker { start_pos: self.pos, finish_pos, kind }
    }
}

/// The node of `completed` is the last thing written: its `Start` has no
/// forward parent yet, its `Finish` is the last event, and what stands
/// between them is whole.
pub open spec fn just_completed(events: Seq<Event>, completed: CompletedMarker) -> bool {
    &&& 0 <= completed.start_pos < completed.finish_pos == events.len() - 1
    &&& events[completed.start_pos as int] == Event::Start {
        kind: completed.kind,
        forward_parent: None,
    }
    &&& events[completed.finish_pos as int] is Finish
    &&& closed(events.subrange(completed.start_pos + 1, completed.finish_pos as int))
}

/// `completed` names a node that can be taken back: its `Start` and its
/// `Finish` stand at the two places, what stands between them is whole, and
/// so is what was written after the node, if anything was.
pub open spec fn whole_node(events: Seq<Event>, completed: CompletedMarker) -> bool {
    &&& 0 <= completed.start_pos < completed.finish_pos < events.len()
    &&& events[completed.start_pos as int] is Start
    &&& events[completed.finish_pos as int] is Finish
    &&& closed(events.subrange(completed.start_pos + 1, completed.finish_pos as int))
    &&& completed.finish_pos == events.len() - 1 || closed(
        events.skip(completed.finish_pos + 1),
    )
}

/// A list that never closes more than it opened has only such beginnings.
pub proof fn lemma_never_negative_take(events: Seq<Event>, k: int)
    requires
        never_negative(events),
        0 <= k <= events.len(),
    ensures
        never_negative(events.take(k)),
    decreases events.len(),
{
    reveal(closed);
    reveal(tokens_fit);
    if k == events.len() {
        assert(events.take(k) =~= events);
    } else {
        assert(events.take(k) =~= events.drop_last().take(k));
        lemma_never_negative_take(events.drop_last(), k);
    }
}

/// What `complete` does to a parser in order.
pub proof fn lemma_complete(s: ParserView, m: int, kind: SyntaxKind)
    requires
        s.wf(),
        pending(s.events, m),
    ensures
        s.complete(m, kind).wf(),
        closed(s.complete(m, kind).events.skip(m)),
        closed(s.complete(m, kind).events.subrange(m + 1, s.events.len() as int)),
        forall|k: int| k < m && #[trigger] pending(s.events, k) ==> pending(
            s.complete(m, kind).events,
            k,
        ),
{
    reveal(closed);
    reveal(tokens_fit);
    let start = Event::Start { kind, forward_parent: None };
    let e0 = s.events;
    let e1 = e0.update(m, start);
    let e2 = e1.push(Event::Finish);
    lemma_update_same(e0, m, start, s.source.tokens);
    assert(e2.drop_last() =~= e1);
    lemma_pending_node(e0, m, kind);
    assert(e2.subrange(m + 1, e0.len() as int) =~= e0.skip(m + 1));
    assert forall|k: int| k < m && #[trigger] pending(e0, k) implies pending(e2, k) by {
        let whole = e0.skip(k + 1);
        let x = e0.subrange(k + 1, m);
        let rest = e0.skip(m);
        assert(whole =~= x + rest);
        assert(whole.take(m - k - 1) =~= x);
        lemma_never_negative_take(whole, m - k - 1);
        lemma_net_concat(x, rest);
        assert(rest =~= seq![Event::Tombstone] + e0.skip(m + 1));
        lemma_net_concat(seq![Event::Tombstone], e0.skip(m + 1));
        assert(seq![Event::Tombstone].drop_last() =~= Seq::<Event>::empty());
        assert(net(seq![Event::Tombstone].drop_last()) == 0);
        assert(net(seq![Event::Tombstone]) == 0);
        assert(e2.skip(k + 1) =~= x + e2.skip(m));
        lemma_net_concat(x, e2.skip(m));
    }
}

/// What `precede` does to a parser in order.
pub proof fn lemma_precede(s: ParserView, start: int)
    requires
        s.wf(),
        0 <= start < s.events.len(),
        s.events[start] is Start,
    ensures
        s.precede(start).wf(),
        pending(s.precede(start).events, s.events.len() as int),
        forall|k: int| k < start && #[trigger] pending(s.events, k) ==> pending(
            s.precede(start).events,
            k,
        ),
{
    reveal(closed);
    reveal(tokens_fit);
    let e0 = s.events;
    let linked = Event::Start {
        kind: e0[start]->Start_kind,
        forward_parent: Some(e0.len() as usize),
    };
    let e1 = e0.update(start, linked);
    let e2 = e1.push(Event::Tombstone);
    lemma_update_same(e0, start, linked, s.source.tokens);
    assert(e2.drop_last() =~= e1);
    assert(e2.skip(e0.len() as int + 1) =~= Seq::<Event>::empty());
    assert forall|k: int| k < start && #[trigger] pending(e0, k) implies pending(e2, k) by {
        let whole = e0.skip(k + 1);
        lemma_update_same(whole, start - k - 1, linked, s.source.tokens);
        assert(e1.skip(k + 1) =~= whole.update(start - k - 1, linked));
        assert(e2.skip(k + 1) =~= e1.skip(k + 1).push(Event::Tombstone));
        assert(e1.skip(k + 1).push(Event::Tombstone).drop_last() =~= e1.skip(k + 1));
    }
}

/// What `undo_completion` does to a parser in order.
pub proof fn lemma_undo_completion(s: ParserView, completed: CompletedMarker)
    requires
        s.wf(),
        whole_node(s.events, completed),
    ensures
        s.undo_completion(completed.start_pos as int, completed.finish_pos as int).wf(),
        pending(
            s.undo_completion(completed.start_pos as int, completed.finish_pos as int).events,
            completed.start_pos as int,
        ),
        forall|k: int| k < completed.start_pos && #[trigger] pending(s.events, k) ==> pending(
            s.undo_completion(completed.start_pos as int, completed.finish_pos as int).events,
            k,
        ),
{
    reveal(closed);
    reveal(tokens_fit);
    let a = completed.start_pos as int;
    let b = completed.finish_pos as int;
    let e0 = s.events;
    let e1 = e0.update(a, Event::Tombstone);
    let e2 = e1.update(b, Event::Tombstone);
    lemma_update_same(e0, a, Event::Tombstone, s.source.tokens);
    lemma_update_same(e1, b, Event::Tombstone, s.source.tokens);
    let inner = e0.subrange(a + 1, b);
    let rest = e0.skip(b + 1);
    let quiet = seq![Event::Tombstone];
    assert(quiet.drop_last() =~= Seq::<Event>::empty());
    assert(net(quiet.drop_last()) == 0);
    assert(never_negative(quiet.drop_last()));
    assert(net(quiet) == 0 && never_negative(quiet));
    if b == e0.len() - 1 {
        assert(rest =~= Seq::<Event>::empty());
    }
    assert(never_negative(rest) && net(rest) == 0);
    lemma_net_concat(quiet, rest);
    lemma_net_concat(inner, quiet + rest);
    assert(e2.skip(a + 1) =~= inner + (quiet + rest));
    assert forall|k: int| k < a && #[trigger] pending(e0, k) implies pending(e2, k) by {
        let whole = e0.skip(k + 1);
        let x = e0.subrange(k + 1, a);
        let opening = seq![e0[a]];
        let closing = seq![Event::Finish];
        assert(opening.drop_last() =~= Seq::<Event>::empty());
        assert(net(opening.drop_last()) == 0);
        assert(net(opening) == 1);
        assert(closing.drop_last() =~= Seq::<Event>::empty());
        assert(net(closing.drop_last()) == 0);
        assert(net(closing) == -1);
        assert(whole =~= x + (opening + (inner + (closing + rest))));
        assert(whole.take(a - k - 1) =~= x);
        lemma_never_negative_take(whole, a - k - 1);
        lemma_net_concat(closing, rest);
        lemma_net_concat(inner, closing + rest);
        lemma_net_concat(opening, inner + (closing + rest));
        lemma_net_concat(x, opening + (inner + (closing + rest)));
        lemma_net_concat(quiet, inner + (quiet + rest));
        lemma_net_concat(x, quiet + (inner + (quiet + rest)));
        assert(e2.skip(k + 1) =~= x + (quiet + (inner + (quiet + rest))));
    }
}

impl CompletedMarker {
    /// Sets a new marker that becomes the parent of this node: the marker
    /// is written at the end of the events, and this node's `Start` gets a
    /// link to it.
    pub fn precede(self, p: &mut Parser) -> (marker: Marker)
        requires
            old(p)@.wf(),
            self.start_pos < old(p)@.events.len(),
            old(p)@.events[self.start_pos as int] is Start,
        ensures
            final(p)@ == old(p)@.precede(self.start_pos as int),
            final(p)@.wf(),
            marker.pos == old(p)@.events.len(),
            pending(final(p)@.events, marker.pos as int),
            forall|m: int|
                m < self.start_pos && #[trigger] pending(old(p)@.events, m) ==> pending(
                    final(p)@.events,
                    m,
                ),
    {
        let new_pos = p.events.len();
        let kind = match p.events[self.start_pos] {
            Event::Start { kind, .. } => kind,
            _ => self.kind,
        };
        p.events.set(self.start_pos, Event::Start { kind, forward_parent: Some(new_pos) });
        p.events.push(Event::Tombstone);
        proof {
            lemma_precede(old(p)@, self.start_pos as int);
        }
        Marker::new(new_pos)
    }

    /// Takes the completion back: the `Start` and the `Finish` of this node
    /// become tombstones, and its marker is open again. The two places must
    /// hold the `Start` and the `Finish` of one node; where more was
    /// written after the node, that must be whole, so that the marker can
    /// be completed again.
    pub fn undo_completion(self, p: &mut Parser) -> (marker: Marker)
        requires
            old(p)@.wf(),
            whole_node(old(p)@.events, self),
        ensures
            final(p)@ == old(p)@.undo_completion(self.start_pos as int, self.finish_pos as int),
            final(p)@.wf(),
            marker.pos == self.start_pos,
            pending(final(p)@.events, marker.pos as int),
            forall|m: int|
                m < self.start_pos && #[trigger] pending(old(p)@.events, m) ==> pending(
                    final(p)@.events,
                    m,
                ),
    {
        p.events.set(self.start_pos, Event::Tombstone);
        p.events.set(self.finish_pos, Event::Tombstone);
        proof {
            lemma_undo_completion(old(p)@, self);
        }
        Marker::new(self.start_pos)
    }
}

} // verus!

//! The marker components that a node entity carries through its lifecycle:
//! `Active` while the node runs, `Finished` once it has finished. Each
//! lifecycle event inserts or removes them.
use vstd::prelude::*;
use crate::dispatcher::Event;

verus! {

/// Which of the two markers a node entity carries.
#[derive(PartialEq, Eq, Structural, Clone, Copy, Debug)]
pub struct Markers {
    pub active: bool,
    pub finished: bool,
}

/// What an event does to one marker.
#[derive(PartialEq, Eq, Structural, Clone, Copy, Debug)]
pub enum MarkerOp {
    Keep,
    Insert,
    Remove,
}

/// What an event does to the two markers.
#[derive(PartialEq, Eq, Structural, Clone, Copy, Debug)]
pub struct MarkerChange {
    pub active: MarkerOp,
    pub finished: MarkerOp,
}

/// The change that the observer of `event` makes: a start inserts `Active`;
/// a finish removes `Active` and inserts `Finished`; a reset removes both.
pub open spec fn change_for(event: Event) -> MarkerChange {
    match event {
        Event::Start => MarkerChange { active: MarkerOp::Insert, finished: MarkerOp::Keep },
        Event::Finish => MarkerChange { active: MarkerOp::Remove, finished: MarkerOp::Insert },
        Event::Reset => MarkerChange { active: MarkerOp::Remove, finished: MarkerOp::Remove },
    }
}

/// Whether a marker is present after `op`, given whether it was before.
pub open spec fn present_after(present: bool, op: MarkerOp) -> bool {
    match op {
        MarkerOp::Keep => present,
        MarkerOp::Insert => true,
        MarkerOp::Remove => false,
    }
}

/// The markers after `change`.
pub open spec fn changed(m: Markers, change: MarkerChange) -> Markers {
    Markers {
        active: present_after(m.active, change.active),
        finished: present_after(m.finished, change.finished),
    }
}

/// The markers after the observer of `event` has run.
pub open spec fn markers_after(m: Markers, event: Event) -> Markers {
    changed(m, change_for(event))
}

/// The change that the observer of `event` makes to a node entity.
pub fn marker_change(event: Event) -> (c: MarkerChange)
    ensures
        c == change_for(event),
        event == Event::Start ==> c.active == MarkerOp::Insert && c.finished == MarkerOp::Keep,
        event == Event::Finish ==> c.active == MarkerOp::Remove && c.finished == MarkerOp::Insert,
        event == Event::Reset ==> c.active == MarkerOp::Remove && c.finished == MarkerOp::Remove,
{
    match event {
        Event::Start => MarkerChange { active: MarkerOp::Insert, finished: MarkerOp::Keep },
        Event::Finish => MarkerChange { active: MarkerOp::Remove, finished: MarkerOp::Insert },
        Event::Reset => MarkerChange { active: MarkerOp::Remove, finished: MarkerOp::Remove },
    }
}

fn present_after_op(present: bool, op: MarkerOp) -> (r: bool)
    ensures
        r == present_after(present, op),
{
    match op {
        MarkerOp::Keep => present,
        MarkerOp::Insert => true,
        MarkerOp::Remove => false,
    }
}

impl Markers {
    /// A node entity without markers, as it is spawned.
    pub fn none() -> (m: Markers)
        ensures
            !m.active,
            !m.finished,
    {
        Markers { active: false, finished: false }
    }

    /// The markers after `change`.
    pub fn apply(self, change: MarkerChange) -> (m: Markers)
        ensures
            m == changed(self, change),
    {
        Markers {
            active: present_after_op(self.active, change.active),
            finished: present_after_op(self.finished, change.finished),
        }
    }

    /// The markers after the observer of `event` has run.
    pub fn after(self, event: Event) -> (m: Markers)
        ensures
            m == markers_after(self, event),
            event == Event::Start ==> m.active && m.finished == self.finished,
            event == Event::Finish ==> !m.active && m.finished,
            event == Event::Reset ==> !m.active && !m.finished,
    {
        self.apply(marker_change(event))
    }
}

/// Announcing the same event twice leaves the markers as announcing it once.
pub proof fn lemma_event_idempotent(m: Markers, event: Event)
    ensures
        markers_after(markers_after(m, event), event) == markers_after(m, event),
{
}

/// A reset returns a node entity to the markers it was spawned with,
/// whatever it carried before.
pub proof fn lemma_reset_restores_spawned(m: Markers)
    ensures
        markers_after(m, Event::Reset) == (Markers { active: false, finished: false }),
{
}

/// A node that is started and then finished carries `Finished` and not
/// `Active`, whatever it carried before.
pub proof fn lemma_start_then_finish(m: Markers)
    ensures
        markers_after(markers_after(m, Event::Start), Event::Finish) == (Markers {
            active: false,
            finished: true,
        }),
{
}

/// A node never carries `Active` after its last event was a finish or reset,
/// and always carries it after a start.
pub proof fn lemma_active_iff_started(m: Markers, event: Event)
    ensures
        markers_after(m, event).active <==> event == Event::Start,
{
}

/// The markers after the observers of `events` have run, in order.
pub open spec fn markers_after_all(m: Markers, events: Seq<Event>) -> Markers
    decreases events.len(),
{
    if events.len() == 0 {
        m
    } else {
        markers_after(markers_after_all(m, events.drop_last()), events.last())
    }
}

/// Some finish in `events` comes after every reset in it.
pub open spec fn finished_since_reset(events: Seq<Event>) -> bool {
    exists|i: int|
        0 <= i < events.len() && #[trigger] events[i] == Event::Finish && forall|j: int|
            i < j < events.len() ==> events[j] != Event::Reset
}

impl Markers {
    /// The markers after the observers of `events` have run, in order.
    pub fn after_all(self, events: &Vec<Event>) -> (m: Markers)
        ensures
            m == markers_after_all(self, events@),
    {
        let mut m = self;
        let mut i: usize = 0;
        while i < events.len()
            invariant
                i <= events@.len(),
                m == markers_after_all(self, events@.take(i as int)),
            decreases events@.len() - i,
        {
            assert(events@.take(i + 1).drop_last() == events@.take(i as int));
            m = m.after(events[i]);
            i = i + 1;
        }
        assert(events@.take(events@.len() as int) == events@);
        m
    }
}

/// Whether some finish comes after every reset, after one more event.
proof fn lemma_finished_since_reset_step(p: Seq<Event>, e: Event)
    ensures
        finished_since_reset(p.push(e)) <==> (e == Event::Finish || (e == Event::Start
            && finished_since_reset(p))),
{
    let s = p.push(e);
    let last = p.len() as int;
    assert(s[last] == e);
    assert forall|k: int| 0 <= k < p.len() implies #[trigger] s[k] == p[k] by {}
    if e == Event::Finish {
        assert(s[last] == Event::Finish);
    } else if finished_since_reset(s) {
        let i = choose|i: int|
            0 <= i < s.len() && #[trigger] s[i] == Event::Finish && forall|j: int|
                i < j < s.len() ==> s[j] != Event::Reset;
        assert(i < last);
        if e == Event::Reset {
            assert(s[last] != Event::Reset);
        } else {
            assert(p[i] == Event::Finish);
            assert forall|j: int| i < j < p.len() implies p[j] != Event::Reset by {
                assert(s[j] != Event::Reset);
            }
        }
    } else if e == Event::Start && finished_since_reset(p) {
        let i = choose|i: int|
            0 <= i < p.len() && #[trigger] p[i] == Event::Finish && forall|j: int|
                i < j < p.len() ==> p[j] != Event::Reset;
        assert(s[i] == Event::Finish);
        assert forall|j: int| i < j < s.len() implies s[j] != Event::Reset by {
            if j < last {
                assert(p[j] != Event::Reset);
            }
        }
    }
}

/// A spawned node entity, after any sequence of lifecycle events, carries
/// `Active` exactly when the last event was a start, and `Finished` exactly
/// when some finish came after every reset.
pub proof fn lemma_markers_after_events(events: Seq<Event>)
    ensures
        markers_after_all(Markers { active: false, finished: false }, events).active <==> (
        events.len() > 0 && events.last() == Event::Start),
        markers_after_all(Markers { active: false, finished: false }, events).finished
            <==> finished_since_reset(events),
    decreases events.len(),
{
    let none = Markers { active: false, finished: false };
    if events.len() == 0 {
        assert(!finished_since_reset(events));
    } else {
        let p = events.drop_last();
        let e = events.last();
        lemma_markers_after_events(p);
        assert(events == p.push(e));
        lemma_finished_since_reset_step(p, e);
        assert(markers_after_all(none, events) == markers_after(markers_after_all(none, p), e));
    }
}

} // verus!

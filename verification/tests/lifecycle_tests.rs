use bevy_action_orc::dispatcher::Event;
use bevy_action_orc::events::{marker_change, MarkerChange, MarkerOp, Markers};

#[test]
fn observers_change_markers() {
    assert_eq!(
        marker_change(Event::Start),
        MarkerChange { active: MarkerOp::Insert, finished: MarkerOp::Keep }
    );
    assert_eq!(
        marker_change(Event::Finish),
        MarkerChange { active: MarkerOp::Remove, finished: MarkerOp::Insert }
    );
    assert_eq!(
        marker_change(Event::Reset),
        MarkerChange { active: MarkerOp::Remove, finished: MarkerOp::Remove }
    );
}

#[test]
fn node_lifecycle_markers() {
    let spawned = Markers::none();
    assert_eq!(spawned, Markers { active: false, finished: false });
    let started = spawned.after(Event::Start);
    assert_eq!(started, Markers { active: true, finished: false });
    let finished = started.after(Event::Finish);
    assert_eq!(finished, Markers { active: false, finished: true });
    let restarted = finished.after(Event::Start);
    assert_eq!(restarted, Markers { active: true, finished: true });
    assert_eq!(restarted.after(Event::Reset), spawned);
}

#[test]
fn events_are_idempotent() {
    for m in [
        Markers { active: false, finished: false },
        Markers { active: true, finished: false },
        Markers { active: false, finished: true },
        Markers { active: true, finished: true },
    ] {
        for e in [Event::Start, Event::Finish, Event::Reset] {
            assert_eq!(m.after(e).after(e), m.after(e));
        }
        assert_eq!(m.after(Event::Reset), Markers::none());
        assert_eq!(m.after(Event::Start).after(Event::Finish), Markers { active: false, finished: true });
    }
}

#[test]
fn apply_keeps_what_it_is_told_to_keep() {
    let m = Markers { active: true, finished: true };
    let c = MarkerChange { active: MarkerOp::Keep, finished: MarkerOp::Remove };
    assert_eq!(m.apply(c), Markers { active: true, finished: false });
}

#[test]
fn markers_after_event_sequences() {
    let none = Markers::none();
    assert_eq!(none.after_all(&vec![]), none);
    assert_eq!(
        none.after_all(&vec![Event::Start, Event::Finish, Event::Start]),
        Markers { active: true, finished: true }
    );
    assert_eq!(
        none.after_all(&vec![Event::Start, Event::Finish, Event::Reset, Event::Start]),
        Markers { active: true, finished: false }
    );
    assert_eq!(
        none.after_all(&vec![Event::Finish, Event::Reset, Event::Finish, Event::Start, Event::Finish]),
        Markers { active: false, finished: true }
    );
}

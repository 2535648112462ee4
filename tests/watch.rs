use reinschrift::watch::{react_to, FileEvent};

#[test]
fn content_events_reload_and_notify() {
    for e in [FileEvent::Changed, FileEvent::ChangesDoneHint, FileEvent::Created] {
        let r = react_to(e);
        assert!(r.reload && r.notify);
    }
}

#[test]
fn incidental_events_reload_quietly() {
    for e in [FileEvent::Deleted, FileEvent::Moved, FileEvent::Renamed, FileEvent::AttributeChanged] {
        let r = react_to(e);
        assert!(r.reload);
        assert!(!r.notify);
    }
}

#[test]
fn unsubscribed_events_are_ignored() {
    let r = react_to(FileEvent::Other);
    assert!(!r.reload && !r.notify);
}

use reinschrift::detector::{ChangeDetector, Fingerprint, BASE_INTERVAL_SECS, MAX_INTERVAL_SECS};

#[test]
fn detector_starts_at_base_interval() {
    let d = ChangeDetector::new();
    assert_eq!(d.interval_secs(), 10);
    assert_eq!(BASE_INTERVAL_SECS, 10);
    assert_eq!(MAX_INTERVAL_SECS, 300);
}

#[test]
fn failures_double_the_interval_up_to_the_ceiling() {
    let mut d = ChangeDetector::new();
    let mut seen = Vec::new();
    for _ in 0..7 {
        assert!(!d.poll(None));
        seen.push(d.interval_secs());
    }
    assert_eq!(seen, vec![20, 40, 80, 160, 300, 300, 300]);
}

#[test]
fn a_change_resets_the_interval() {
    let mut d = ChangeDetector::new();
    d.note_reload(Fingerprint::of(b"- [ ] one"));
    d.poll(None);
    d.poll(None);
    assert_eq!(d.interval_secs(), 40);
    assert!(d.poll(Some(Fingerprint::of(b"- [ ] one\n- [ ] two"))));
    assert_eq!(d.interval_secs(), 10);
}

#[test]
fn unchanged_content_does_not_reload() {
    let mut d = ChangeDetector::new();
    d.note_reload(Fingerprint::of(b"abc"));
    assert!(!d.poll(Some(Fingerprint::of(b"abc"))));
    assert_eq!(d.interval_secs(), 10);
}

#[test]
fn first_successful_poll_counts_as_a_change() {
    let mut d = ChangeDetector::new();
    assert!(d.poll(Some(Fingerprint::of(b""))));
    assert!(!d.poll(Some(Fingerprint::of(b""))));
}

#[test]
fn fingerprints_differ_exactly_when_bytes_differ() {
    let a = Fingerprint::of(b"abc");
    let b = Fingerprint::of(b"abc");
    let c = Fingerprint::of(b"abd");
    let e = Fingerprint::of(b"ab");
    assert!(a.same_as(&b));
    assert!(!a.same_as(&c));
    assert!(!a.same_as(&e));
}

use reinschrift::errors::{ends_voice_run, reporting, ErrorKind, Origin, Reporting};

#[test]
fn user_action_failures_are_shown() {
    assert_eq!(reporting(ErrorKind::StoreWriteFailed, Origin::UserAction), Reporting::Notification);
    assert_eq!(reporting(ErrorKind::VoiceModelMissing, Origin::UserAction), Reporting::Notification);
    assert_eq!(reporting(ErrorKind::ConnectivityCheckFailed, Origin::UserAction), Reporting::Inline);
}

#[test]
fn background_failures_are_only_logged() {
    assert_eq!(reporting(ErrorKind::FingerprintError, Origin::Background), Reporting::LogOnly);
    assert_eq!(reporting(ErrorKind::RecurrenceInsertFailed, Origin::UserAction), Reporting::LogOnly);
}

#[test]
fn unreadable_store_on_first_load_asks_for_setup() {
    assert_eq!(reporting(ErrorKind::StoreUnavailable, Origin::FirstLoad), Reporting::SetupPrompt);
    assert_eq!(reporting(ErrorKind::StoreUnavailable, Origin::UserAction), Reporting::Notification);
    assert_eq!(reporting(ErrorKind::StoreUnavailable, Origin::Background), Reporting::LogOnly);
}

#[test]
fn voice_failures_end_the_run() {
    assert!(ends_voice_run(ErrorKind::VoiceDeviceError));
    assert!(ends_voice_run(ErrorKind::TranscriptionError));
    assert!(!ends_voice_run(ErrorKind::StoreWriteFailed));
}

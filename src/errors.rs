use vstd::prelude::*;

verus! {

/// The kinds of failure that the application tells apart.
#[derive(Clone, Copy, Debug, PartialEq, Eq, Structural)]
pub enum ErrorKind {
    /// The store could not be read or reached.
    StoreUnavailable,
    /// Writing a user's change to the store failed.
    StoreWriteFailed,
    /// A poll could not compute the store's fingerprint.
    FingerprintError,
    /// The next occurrence of a completed task could not be inserted.
    RecurrenceInsertFailed,
    VoiceDeviceError,
    VoiceModelMissing,
    TranscriptionError,
    ConnectivityCheckFailed,
}

/// What the failing work was started by.
#[derive(Clone, Copy, Debug, PartialEq, Eq, Structural)]
pub enum Origin {
    /// The first load of the list, at start.
    FirstLoad,
    /// A user's action.
    UserAction,
    /// A poll, a file event or other background work.
    Background,
}

/// How a failure reaches the user.
#[derive(Clone, Copy, Debug, PartialEq, Eq, Structural)]
pub enum Reporting {
    /// Blocks with a prompt to set the store up.
    SetupPrompt,
    /// An error notification.
    Notification,
    /// Shown where the check was started.
    Inline,
    /// Written to the log only; the user is not interrupted.
    LogOnly,
}

/// Failures of work that the user started are shown at once; failures of
/// background work are only logged. An unreadable store on the first load
/// asks for setup.
pub open spec fn reporting_of(kind: ErrorKind, origin: Origin) -> Reporting {
    match kind {
        ErrorKind::StoreUnavailable => match origin {
            Origin::FirstLoad => Reporting::SetupPrompt,
            Origin::UserAction => Reporting::Notification,
            Origin::Background => Reporting::LogOnly,
        },
        ErrorKind::StoreWriteFailed => Reporting::Notification,
        ErrorKind::FingerprintError => Reporting::LogOnly,
        ErrorKind::RecurrenceInsertFailed => Reporting::LogOnly,
        ErrorKind::VoiceDeviceError => Reporting::Notification,
        ErrorKind::VoiceModelMissing => Reporting::Notification,
        ErrorKind::TranscriptionError => Reporting::Notification,
        ErrorKind::ConnectivityCheckFailed => Reporting::Inline,
    }
}

/// Whether a failure ends the voice pipeline's run.
pub open spec fn stops_voice(kind: ErrorKind) -> bool {
    kind is VoiceDeviceError || kind is VoiceModelMissing || kind is TranscriptionError
}

/// How a failure of `kind`, in work started as `origin` says, is reported.
pub fn reporting(kind: ErrorKind, origin: Origin) -> (r: Reporting)
    ensures
        r == reporting_of(kind, origin),
{
    match kind {
        ErrorKind::StoreUnavailable => match origin {
            Origin::FirstLoad => Reporting::SetupPrompt,
            Origin::UserAction => Reporting::Notification,
            Origin::Background => Reporting::LogOnly,
        },
        ErrorKind::StoreWriteFailed => Reporting::Notification,
        ErrorKind::FingerprintError => Reporting::LogOnly,
        ErrorKind::RecurrenceInsertFailed => Reporting::LogOnly,
        ErrorKind::VoiceDeviceError => Reporting::Notification,
        ErrorKind::VoiceModelMissing => Reporting::Notification,
        ErrorKind::TranscriptionError => Reporting::Notification,
        ErrorKind::ConnectivityCheckFailed => Reporting::Inline,
    }
}

/// Whether a failure of `kind` sends the voice pipeline back to idle.
pub fn ends_voice_run(kind: ErrorKind) -> (r: bool)
    ensures
        r == stops_voice(kind),
{
    match kind {
        ErrorKind::VoiceDeviceError | ErrorKind::VoiceModelMissing | ErrorKind::TranscriptionError => true,
        _ => false,
    }
}

} // verus!

use vstd::prelude::*;

verus! {

/// What the file monitor reports about the store's file.
#[derive(Clone, Copy, Debug, PartialEq, Eq, Structural)]
pub enum FileEvent {
    Changed,
    ChangesDoneHint,
    Created,
    Deleted,
    Moved,
    Renamed,
    AttributeChanged,
    /// Any event that is not subscribed to (mounts and the like).
    Other,
}

/// What to do about a file event.
#[derive(Clone, Copy, Debug, PartialEq, Eq, Structural)]
pub struct WatchReaction {
    /// Rebuild the list from the store.
    pub reload: bool,
    /// Tell the user that the changes were applied.
    pub notify: bool,
}

/// Every subscribed event reloads.
pub open spec fn reloads_on(e: FileEvent) -> bool {
    !(e is Other)
}

/// Only content changes are announced; deletions, moves, renames and
/// attribute changes reload quietly.
pub open spec fn announces(e: FileEvent) -> bool {
    e is Changed || e is ChangesDoneHint || e is Created
}

/// How to react to a file event.
pub fn react_to(e: FileEvent) -> (r: WatchReaction)
    ensures
        r.reload == reloads_on(e),
        r.notify == announces(e),
{
    match e {
        FileEvent::Changed | FileEvent::ChangesDoneHint | FileEvent::Created => {
            WatchReaction { reload: true, notify: true }
        },
        FileEvent::Deleted | FileEvent::Moved | FileEvent::Renamed | FileEvent::AttributeChanged => {
            WatchReaction { reload: true, notify: false }
        },
        FileEvent::Other => WatchReaction { reload: false, notify: false },
    }
}

} // verus!

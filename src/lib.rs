//! The synchronisation and reconciliation core of a personal task manager:
//! change detection on the task store, rebuilding the visible list with its
//! selection, advancing repeating tasks, the voice capture pipeline, the
//! store switch, and the translation lookup, each with its contract.

pub mod backend;
pub mod detector;
pub mod errors;
pub mod i18n;
pub mod order;
pub mod present;
pub mod reconcile;
pub mod recurrence;
pub mod task;
pub mod voice;
pub mod watch;

//! The workspace synchronizer's decision: what one file-system event
//! means for the runtime. Ignored paths produce no traffic; a created or
//! modified file that is open is re-announced with `change`; a removed
//! path that is open is closed; nothing else happens. The watching
//! itself — the platform backend and its event loop — lives in the rim.

use vstd::prelude::*;

verus! {

/// The kinds of file-system event the watcher reacts to.
#[derive(Clone, Copy)]
pub enum FileEventKind {
    Create,
    Modify,
    Remove,
    Other,
}

/// What the runtime should do for one event path.
pub enum WatcherAction {
    /// Announce the file's new content with `change`.
    NotifyChange,
    /// Close the document: the file is gone.
    CloseFile,
    /// No traffic.
    Nothing,
}

/// What an event path warrants: an ignored path never produces traffic;
/// a created or modified path that is a regular file and open becomes a
/// `change`; a removed path that is open becomes a `close`; everything
/// else is let pass.
pub open spec fn decide_event_spec(
    kind: FileEventKind,
    ignored: bool,
    is_file: bool,
    is_open: bool,
) -> WatcherAction {
    match kind {
        FileEventKind::Create | FileEventKind::Modify => {
            if !ignored && is_file && is_open {
                WatcherAction::NotifyChange
            } else {
                WatcherAction::Nothing
            }
        },
        FileEventKind::Remove => {
            if !ignored && is_open {
                WatcherAction::CloseFile
            } else {
                WatcherAction::Nothing
            }
        },
        FileEventKind::Other => WatcherAction::Nothing,
    }
}

/// Decides one event path, given what the rim observed: whether the
/// path is ignored, whether it is a regular file, and whether the
/// runtime has it open.
pub fn decide_event(
    kind: FileEventKind,
    ignored: bool,
    is_file: bool,
    is_open: bool,
) -> (r: WatcherAction)
    ensures
        r == decide_event_spec(kind, ignored, is_file, is_open),
{
    match kind {
        FileEventKind::Create | FileEventKind::Modify => {
            if !ignored && is_file && is_open {
                WatcherAction::NotifyChange
            } else {
                WatcherAction::Nothing
            }
        },
        FileEventKind::Remove => {
            if !ignored && is_open {
                WatcherAction::CloseFile
            } else {
                WatcherAction::Nothing
            }
        },
        FileEventKind::Other => WatcherAction::Nothing,
    }
}

} // verus!

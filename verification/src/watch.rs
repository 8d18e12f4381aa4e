//! The watcher's decision path: raw platform notifications mapped to file
//! events, excluded paths rejected, the rest debounced. The platform
//! subscription itself lives outside the library; it hands raw events in
//! as plain values.
use vstd::prelude::*;

use crate::debounce::FileEventType;

verus! {

/// The shape of a raw platform notification, as plain values.
#[derive(Debug, Clone, Copy, PartialEq, Eq, Structural)]
pub enum RawEventKind {
    Create,
    Modify,
    Rename,
    Remove,
    Access,
    Any,
    Other,
}

/// One event delivered to the synchronizer.
pub struct FileEvent {
    pub path: String,
    pub event_type: FileEventType,
}

/// How raw notification kinds become file events: creations, changes,
/// renames and removals pass (an unclassified event counts as a change),
/// everything else is dropped.
pub open spec fn map_kind_spec(kind: RawEventKind) -> Option<FileEventType> {
    match kind {
        RawEventKind::Create => Some(FileEventType::Created),
        RawEventKind::Modify => Some(FileEventType::Modified),
        RawEventKind::Rename => Some(FileEventType::Renamed),
        RawEventKind::Remove => Some(FileEventType::Deleted),
        RawEventKind::Any => Some(FileEventType::Modified),
        RawEventKind::Access => None,
        RawEventKind::Other => None,
    }
}

pub fn map_event_kind(kind: RawEventKind) -> (r: Option<FileEventType>)
    ensures
        r == map_kind_spec(kind),
{
    match kind {
        RawEventKind::Create => Some(FileEventType::Created),
        RawEventKind::Modify => Some(FileEventType::Modified),
        RawEventKind::Rename => Some(FileEventType::Renamed),
        RawEventKind::Remove => Some(FileEventType::Deleted),
        RawEventKind::Any => Some(FileEventType::Modified),
        RawEventKind::Access => None,
        RawEventKind::Other => None,
    }
}

} // verus!

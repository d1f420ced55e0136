//! The sync protocol's data model: note changes as clients push them and as
//! the server hands them out, each stamped with a server revision.
use vstd::prelude::*;
use crate::text::is_blank;
use crate::time::{Timestamp, ts_lt};

verus! {

/// The latest state of one note as a client reports it. A deletion sets
/// `deleted_at`; the server keeps such tombstones.
#[derive(Debug, Clone, PartialEq, Eq)]
pub struct SyncChange {
    pub id: String,
    pub title: String,
    pub content: String,
    pub category: String,
    pub created_at: Timestamp,
    pub updated_at: Timestamp,
    pub deleted_at: Option<Timestamp>,
    pub content_hash: String,
    pub device_id: String,
}

/// A note state together with the server revision at which it was stored.
#[derive(Debug, Clone, PartialEq, Eq)]
pub struct RevisionedChange {
    pub revision: u64,
    pub note: SyncChange,
}

/// A batch of changes pushed by one device.
#[derive(Debug, Clone, PartialEq, Eq)]
pub struct PushRequest {
    pub device_id: String,
    pub changes: Vec<SyncChange>,
}

/// The server revision after a push.
#[derive(Debug, Clone, Copy, PartialEq, Eq)]
pub struct PushResponse {
    pub revision: u64,
}

/// The note states stored after a given revision, and the current revision.
#[derive(Debug, Clone, PartialEq, Eq)]
pub struct ChangesResponse {
    pub revision: u64,
    pub changes: Vec<RevisionedChange>,
}

/// The answer of the health endpoint.
#[derive(Debug, Clone, Copy, PartialEq, Eq)]
pub struct HealthResponse {
    pub ok: bool,
    pub revision: u64,
}

/// The answer of the long-poll endpoint: the current revision and whether it
/// moved past the client's cursor.
#[derive(Debug, Clone, Copy, PartialEq, Eq)]
pub struct WaitResponse {
    pub revision: u64,
    pub changed: bool,
}

/// Mathematical form of [`SyncChange`].
pub struct NoteView {
    pub id: Seq<char>,
    pub title: Seq<char>,
    pub content: Seq<char>,
    pub category: Seq<char>,
    pub created_at: Timestamp,
    pub updated_at: Timestamp,
    pub deleted_at: Option<Timestamp>,
    pub content_hash: Seq<char>,
    pub device_id: Seq<char>,
}

/// Mathematical form of [`RevisionedChange`].
pub struct RevisionedView {
    pub revision: nat,
    pub note: NoteView,
}

impl View for SyncChange {
    type V = NoteView;

    open spec fn view(&self) -> NoteView {
        NoteView {
            id: self.id@,
            title: self.title@,
            content: self.content@,
            category: self.category@,
            created_at: self.created_at,
            updated_at: self.updated_at,
            deleted_at: self.deleted_at,
            content_hash: self.content_hash@,
            device_id: self.device_id@,
        }
    }
}

impl View for RevisionedChange {
    type V = RevisionedView;

    open spec fn view(&self) -> RevisionedView {
        RevisionedView { revision: self.revision as nat, note: self.note@ }
    }
}

/// The views of a list of note states.
pub open spec fn notes_view(v: Seq<SyncChange>) -> Seq<NoteView> {
    v.map_values(|c: SyncChange| c@)
}

/// The views of a list of revisioned note states.
pub open spec fn revisioned_view(v: Seq<RevisionedChange>) -> Seq<RevisionedView> {
    v.map_values(|c: RevisionedChange| c@)
}

/// The instant that orders a note state for last-writer-wins: its deletion
/// time for a tombstone, else its update time.
pub open spec fn change_time(c: NoteView) -> Timestamp {
    match c.deleted_at {
        Some(t) => t,
        None => c.updated_at,
    }
}

fn opt_ts_eq(a: &Option<Timestamp>, b: &Option<Timestamp>) -> (r: bool)
    ensures
        r == (*a == *b),
{
    match (a, b) {
        (Some(x), Some(y)) => x.same_instant(y),
        (None, None) => true,
        _ => false,
    }
}

impl SyncChange {
    /// The instant by which this state competes with others of the same note.
    pub fn change_time(&self) -> (r: Timestamp)
        ensures
            r == change_time(self@),
    {
        match self.deleted_at {
            Some(t) => t,
            None => self.updated_at,
        }
    }

    /// Whether `self` and `other` are the same note state, field by field.
    pub fn same_state(&self, other: &SyncChange) -> (r: bool)
        ensures
            r == (self@ == other@),
    {
        self.id == other.id && self.title == other.title && self.content == other.content
            && self.category == other.category && self.created_at.same_instant(&other.created_at)
            && self.updated_at.same_instant(&other.updated_at) && opt_ts_eq(
            &self.deleted_at,
            &other.deleted_at,
        ) && self.content_hash == other.content_hash && self.device_id == other.device_id
    }

    /// A copy of this note state.
    pub fn clone_change(&self) -> (r: SyncChange)
        ensures
            r@ == self@,
    {
        SyncChange {
            id: self.id.clone(),
            title: self.title.clone(),
            content: self.content.clone(),
            category: self.category.clone(),
            created_at: self.created_at,
            updated_at: self.updated_at,
            deleted_at: self.deleted_at,
            content_hash: self.content_hash.clone(),
            device_id: self.device_id.clone(),
        }
    }
}

} // verus!

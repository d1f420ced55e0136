use floral_sync_server::protocol::{PushRequest, RevisionedChange, SyncChange};
use floral_sync_server::sync_store::{
    plan_push, plan_restore_tombstones, restore_rebase_offset, sort_changes_by_id,
};
use floral_sync_server::time::Timestamp;

const T_0800: i64 = 1_779_091_200;
const T_0805: i64 = 1_779_091_500;
const T_0810: i64 = 1_779_091_800;

/// A store kept in memory: the latest state of each note with its revision,
/// and every accepted write (the snapshot history).
#[derive(Clone)]
struct MemoryStore {
    notes: Vec<RevisionedChange>,
    snapshots: Vec<RevisionedChange>,
    revision: u64,
}

impl MemoryStore {
    fn new() -> Self {
        MemoryStore { notes: Vec::new(), snapshots: Vec::new(), revision: 0 }
    }

    fn push(&mut self, request: PushRequest) -> u64 {
        let stored: Vec<SyncChange> = self.notes.iter().map(|n| n.note.clone()).collect();
        let plan = plan_push(&stored, self.revision, &request);
        for write in plan.writes {
            self.store(write);
        }
        self.revision = plan.revision;
        plan.revision
    }

    fn store(&mut self, write: RevisionedChange) {
        self.snapshots.push(write.clone());
        match self.notes.iter_mut().find(|n| n.note.id == write.note.id) {
            Some(existing) => *existing = write,
            None => self.notes.push(write),
        }
    }

    fn changes_since(&self, since: u64) -> (u64, Vec<RevisionedChange>) {
        let mut changes: Vec<RevisionedChange> =
            self.notes.iter().filter(|n| n.revision > since).cloned().collect();
        changes.sort_by_key(|n| n.revision);
        (self.revision, changes)
    }

    fn snapshot_count(&self, id: &str) -> usize {
        self.snapshots.iter().filter(|s| s.note.id == id).count()
    }

    /// Replaces the contents with `backup` as a restore does.
    fn restore_from(&mut self, backup: &MemoryStore, restore_time: Timestamp) {
        let previous_revision = self.revision;
        let previous: Vec<SyncChange> = self.notes.iter().map(|n| n.note.clone()).collect();
        let offset = restore_rebase_offset(previous_revision, backup.revision).expect("revisions fit");
        self.notes = backup
            .notes
            .iter()
            .map(|n| RevisionedChange { revision: n.revision + offset, note: n.note.clone() })
            .collect();
        self.revision = backup.revision + offset;
        let restored_ids: Vec<String> = self.notes.iter().map(|n| n.note.id.clone()).collect();
        let plan = plan_restore_tombstones(previous, &restored_ids, self.revision, restore_time);
        for write in plan.writes {
            self.store(write);
        }
        self.revision = plan.revision;
    }
}

fn change(id: &str, title: &str, updated_at: i64, deleted_at: Option<i64>) -> SyncChange {
    SyncChange {
        id: id.into(),
        title: title.into(),
        content: "body".into(),
        category: String::new(),
        created_at: Timestamp::new(T_0800, 0),
        updated_at: Timestamp::new(updated_at, 0),
        deleted_at: deleted_at.map(|t| Timestamp::new(t, 0)),
        content_hash: format!("{id}:{title}"),
        device_id: "device-a".into(),
    }
}

fn push_one(store: &mut MemoryStore, device: &str, c: SyncChange) -> u64 {
    store.push(PushRequest { device_id: device.into(), changes: vec![c] })
}

#[test]
fn stores_push_changes_and_returns_incremental_changes() {
    let mut store = MemoryStore::new();
    let pushed = push_one(&mut store, "device-a", change("note-1", "First", T_0800, None));
    let (revision, changes) = store.changes_since(0);

    assert_eq!(pushed, 1);
    assert_eq!(revision, 1);
    assert_eq!(changes.len(), 1);
    assert_eq!(changes[0].note.id, "note-1");
}

#[test]
fn push_and_changes_since_remain_compatible() {
    let mut store = MemoryStore::new();
    assert_eq!(store.revision, 0);

    let response = push_one(&mut store, "device-a", change("note-1", "Title", T_0800, None));

    assert_eq!(response, 1);
    assert_eq!(store.revision, 1);
    let (revision, changes) = store.changes_since(0);
    assert_eq!(revision, 1);
    assert_eq!(changes.len(), 1);
    assert_eq!(changes[0].note.id, "note-1");
}

#[test]
fn keeps_newer_server_version_when_old_change_is_pushed_again() {
    let mut store = MemoryStore::new();
    push_one(&mut store, "device-a", change("note-1", "New", T_0810, None));
    push_one(&mut store, "device-b", change("note-1", "Old", T_0800, None));

    let (revision, changes) = store.changes_since(0);

    assert_eq!(revision, 1);
    assert_eq!(changes.len(), 1);
    assert_eq!(changes[0].note.title, "New");
}

#[test]
fn replaying_the_same_change_does_not_advance_revision() {
    let mut store = MemoryStore::new();
    let request = PushRequest {
        device_id: "device-a".into(),
        changes: vec![change("note-1", "Title", T_0800, None)],
    };

    let first = store.push(request.clone());
    let second = store.push(request);
    let (revision, later) = store.changes_since(first);

    assert_eq!(first, 1);
    assert_eq!(second, 1);
    assert_eq!(store.revision, 1);
    assert!(later.is_empty());
    assert_eq!(revision, 1);
}

#[test]
fn accepted_push_creates_note_snapshot_rows() {
    let mut store = MemoryStore::new();
    push_one(&mut store, "device-a", change("note-1", "Title", T_0800, None));
    assert_eq!(store.snapshot_count("note-1"), 1);
}

#[test]
fn outdated_pushes_do_not_create_note_snapshot_rows() {
    let mut store = MemoryStore::new();
    push_one(&mut store, "device-a", change("note-1", "New", T_0810, None));
    push_one(&mut store, "device-b", change("note-1", "Old", T_0800, None));
    assert_eq!(store.snapshot_count("note-1"), 1);
}

#[test]
fn restore_from_replaces_live_database_contents() {
    let mut store = MemoryStore::new();
    push_one(&mut store, "device-a", change("note-1", "Original", T_0800, None));
    let backup = store.clone();
    push_one(&mut store, "device-a", change("note-1", "Updated", T_0810, None));
    let revision_before_restore = store.revision;

    store.restore_from(&backup, Timestamp::new(T_0810 + 60, 0));

    let (revision, changes) = store.changes_since(revision_before_restore);
    assert_eq!(store.notes[0].note.title, "Original");
    assert_eq!(store.notes[0].revision, 3);
    assert_eq!(revision, 3);
    assert_eq!(changes.len(), 1);
    assert_eq!(changes[0].note.id, "note-1");
    assert_eq!(changes[0].note.title, "Original");
    assert!(changes[0].note.deleted_at.is_none());
}

#[test]
fn restore_from_replays_deleted_note_for_clients_with_newer_cursor() {
    let mut store = MemoryStore::new();
    push_one(&mut store, "device-a", change("note-1", "测试1", T_0800, None));
    let backup = store.clone();
    push_one(&mut store, "device-a", change("note-1", "测试1", T_0810, Some(T_0810)));
    let revision_before_restore = store.revision;

    store.restore_from(&backup, Timestamp::new(T_0810 + 60, 0));

    let (revision, changes) = store.changes_since(revision_before_restore);
    assert_eq!(revision, 3);
    assert_eq!(changes.len(), 1);
    assert_eq!(changes[0].note.id, "note-1");
    assert_eq!(changes[0].note.title, "测试1");
    assert!(changes[0].note.deleted_at.is_none());
}

#[test]
fn restore_from_emits_tombstones_for_notes_missing_from_backup() {
    let mut store = MemoryStore::new();
    push_one(&mut store, "device-a", change("note-1", "Kept", T_0800, None));
    let backup = store.clone();
    push_one(&mut store, "device-a", change("note-2", "Removed", T_0805, None));
    let revision_before_restore = store.revision;

    store.restore_from(&backup, Timestamp::new(T_0810, 0));

    let (revision, changes) = store.changes_since(revision_before_restore);
    assert_eq!(revision, 4);
    assert_eq!(changes.len(), 2);
    assert_eq!(changes[0].note.id, "note-1");
    assert!(changes[0].note.deleted_at.is_none());
    assert_eq!(changes[1].note.id, "note-2");
    assert!(changes[1].note.deleted_at.is_some());
}

#[test]
fn blank_device_ids_take_the_pushing_device() {
    let mut store = MemoryStore::new();
    let mut c = change("note-1", "Title", T_0800, None);
    c.device_id = "   ".into();
    push_one(&mut store, "device-z", c);
    assert_eq!(store.notes[0].note.device_id, "device-z");
}

#[test]
fn equal_times_with_different_content_are_accepted() {
    let mut store = MemoryStore::new();
    push_one(&mut store, "device-a", change("note-1", "A", T_0800, None));
    let revision = push_one(&mut store, "device-b", change("note-1", "B", T_0800, None));
    assert_eq!(revision, 2);
    assert_eq!(store.notes[0].note.title, "B");
}

#[test]
fn deletion_time_counts_as_change_time() {
    let mut store = MemoryStore::new();
    push_one(&mut store, "device-a", change("note-1", "A", T_0800, Some(T_0810)));
    let revision = push_one(&mut store, "device-b", change("note-1", "B", T_0805, None));
    assert_eq!(revision, 1);
    assert_eq!(store.notes[0].note.title, "A");
}

#[test]
fn one_push_numbers_its_accepted_changes_consecutively() {
    let mut store = MemoryStore::new();
    push_one(&mut store, "device-a", change("note-2", "Newer", T_0810, None));
    let request = PushRequest {
        device_id: "device-a".into(),
        changes: vec![
            change("note-1", "One", T_0800, None),
            change("note-2", "Stale", T_0800, None),
            change("note-3", "Three", T_0800, None),
            change("note-1", "One again", T_0805, None),
        ],
    };
    let stored: Vec<SyncChange> = store.notes.iter().map(|n| n.note.clone()).collect();
    let plan = plan_push(&stored, store.revision, &request);
    let revisions: Vec<u64> = plan.writes.iter().map(|w| w.revision).collect();
    let ids: Vec<&str> = plan.writes.iter().map(|w| w.note.id.as_str()).collect();
    assert_eq!(revisions, vec![2, 3, 4]);
    assert_eq!(ids, vec!["note-1", "note-3", "note-1"]);
    assert_eq!(plan.revision, 4);
}

#[test]
fn restore_offset_moves_an_older_backup_past_the_live_revision() {
    assert_eq!(restore_rebase_offset(2, 1), Some(2));
    assert_eq!(restore_rebase_offset(2, 2), Some(2));
    assert_eq!(restore_rebase_offset(1, 5), Some(1));
    assert_eq!(restore_rebase_offset(u64::MAX, 1), None);
}

#[test]
fn restore_tombstones_come_in_id_order_after_the_current_revision() {
    let previous = vec![
        change("note-c", "C", T_0800, None),
        change("note-a", "A", T_0800, None),
        change("note-b", "B", T_0800, None),
    ];
    let restored_ids = vec!["note-b".to_string()];
    let at = Timestamp::new(T_0810, 0);
    let plan = plan_restore_tombstones(previous, &restored_ids, 7, at);
    let ids: Vec<&str> = plan.writes.iter().map(|w| w.note.id.as_str()).collect();
    let revisions: Vec<u64> = plan.writes.iter().map(|w| w.revision).collect();
    assert_eq!(ids, vec!["note-a", "note-c"]);
    assert_eq!(revisions, vec![8, 9]);
    assert_eq!(plan.revision, 9);
    for write in &plan.writes {
        assert_eq!(write.note.deleted_at, Some(at));
        assert_eq!(write.note.updated_at, at);
    }
}

#[test]
fn tombstone_of_a_note_changed_after_the_restore_time_keeps_its_time() {
    let previous = vec![change("note-1", "Future", T_0810, None)];
    let at = Timestamp::new(T_0800, 0);
    let plan = plan_restore_tombstones(previous, &Vec::new(), 0, at);
    assert_eq!(plan.writes[0].note.deleted_at, Some(Timestamp::new(T_0810, 0)));
    assert_eq!(plan.writes[0].note.updated_at, Timestamp::new(T_0810, 0));
}

#[test]
fn sorting_by_id_orders_by_characters() {
    let sorted = sort_changes_by_id(vec![
        change("b", "x", T_0800, None),
        change("a2", "x", T_0800, None),
        change("a10", "x", T_0800, None),
        change("B", "x", T_0800, None),
    ]);
    let ids: Vec<&str> = sorted.iter().map(|c| c.id.as_str()).collect();
    assert_eq!(ids, vec!["B", "a10", "a2", "b"]);
}

#[test]
fn restore_tombstones_do_not_depend_on_the_order_notes_are_given_in() {
    let notes = || {
        vec![
            change("note-b", "B", T_0800, None),
            change("note-c", "C", T_0805, None),
            change("note-a", "A", T_0810, None),
        ]
    };
    let mut reversed = notes();
    reversed.reverse();
    let at = Timestamp::new(T_0810 + 60, 0);
    let first = plan_restore_tombstones(notes(), &Vec::new(), 3, at);
    let second = plan_restore_tombstones(reversed, &Vec::new(), 3, at);
    assert_eq!(first.writes, second.writes);
    let ids: Vec<&str> = first.writes.iter().map(|w| w.note.id.as_str()).collect();
    assert_eq!(ids, vec!["note-a", "note-b", "note-c"]);
}

#[test]
fn restore_of_a_newer_backup_still_moves_past_the_live_revision() {
    let mut backup = MemoryStore::new();
    for i in 0..5 {
        push_one(&mut backup, "device-a", change(&format!("note-{i}"), "T", T_0800 + i, None));
    }
    let mut store = MemoryStore::new();
    push_one(&mut store, "device-a", change("note-0", "Live", T_0810, None));
    let before = store.revision;

    store.restore_from(&backup, Timestamp::new(T_0810 + 60, 0));

    let (revision, changes) = store.changes_since(before);
    assert_eq!(revision, 6);
    assert_eq!(changes.len(), 5);
    assert!(changes.iter().all(|c| c.revision > before));
}

#[test]
fn replaying_a_push_of_several_notes_writes_nothing() {
    let mut store = MemoryStore::new();
    push_one(&mut store, "device-b", change("note-2", "Newer on server", T_0810, None));
    let request = PushRequest {
        device_id: "device-a".into(),
        changes: vec![
            change("note-1", "One", T_0800, None),
            change("note-2", "Older", T_0800, None),
            change("note-3", "Three", T_0800, Some(T_0810)),
        ],
    };

    let first = store.push(request.clone());
    let second = store.push(request);

    assert_eq!(first, 3);
    assert_eq!(second, 3);
    assert!(store.changes_since(first).1.is_empty());
}

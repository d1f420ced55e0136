//! The sync store's decisions: which pushed changes win under
//! last-writer-wins and which revisions they get, and how a restored backup
//! is re-stamped so that clients converge. The store itself (a SQLite
//! database) carries these plans out.
use vstd::prelude::*;
use crate::protocol::{
    change_time, notes_view, revisioned_view, NoteView, PushRequest, RevisionedChange,
    RevisionedView, SyncChange,
};
use crate::text::{contains_string, is_blank, is_blank_str, lemma_str_lt_order, str_less, str_lt, strs_view};
use crate::time::{ts_lt, ts_max, Timestamp};

verus! {

/// The first state in `stored` with the given note id.
pub open spec fn lookup(stored: Seq<NoteView>, id: Seq<char>) -> Option<NoteView>
    decreases stored.len(),
{
    if stored.len() == 0 {
        None
    } else if stored[0].id == id {
        Some(stored[0])
    } else {
        lookup(stored.drop_first(), id)
    }
}

/// The last state written for the note `id`, if any.
pub open spec fn last_write(writes: Seq<RevisionedView>, id: Seq<char>) -> Option<NoteView>
    decreases writes.len(),
{
    if writes.len() == 0 {
        None
    } else if writes.last().note.id == id {
        Some(writes.last().note)
    } else {
        last_write(writes.drop_last(), id)
    }
}

/// The server's latest state of note `id` once `writes` are applied over `stored`.
pub open spec fn latest(stored: Seq<NoteView>, writes: Seq<RevisionedView>, id: Seq<char>) -> Option<
    NoteView,
> {
    match last_write(writes, id) {
        Some(n) => Some(n),
        None => lookup(stored, id),
    }
}

/// `c` with the pushing device's id filled in when it carries none.
pub open spec fn with_device(c: NoteView, device: Seq<char>) -> NoteView {
    if is_blank(c.device_id) {
        NoteView { device_id: device, ..c }
    } else {
        c
    }
}

/// Whether the server keeps its state `existing` against the incoming state:
/// the server's is newer, or equally new and identical.
pub open spec fn keeps_existing(existing: NoteView, incoming: NoteView) -> bool {
    ts_lt(change_time(incoming), change_time(existing)) || (change_time(existing) == change_time(
        incoming,
    ) && existing == incoming)
}

/// Whether the incoming state replaces the server's latest state.
pub open spec fn accepts(latest: Option<NoteView>, incoming: NoteView) -> bool {
    match latest {
        Some(e) => !keeps_existing(e, incoming),
        None => true,
    }
}

/// The writes a push makes, in order: each accepted change, with the device
/// filled in, stamped with the next revision after `start`.
pub open spec fn push_writes(
    stored: Seq<NoteView>,
    start: nat,
    device: Seq<char>,
    changes: Seq<NoteView>,
) -> Seq<RevisionedView>
    decreases changes.len(),
{
    if changes.len() == 0 {
        Seq::empty()
    } else {
        let prev = push_writes(stored, start, device, changes.drop_last());
        let c = with_device(changes.last(), device);
        if accepts(latest(stored, prev, c.id), c) {
            prev.push(RevisionedView { revision: start + prev.len() + 1, note: c })
        } else {
            prev
        }
    }
}

/// What a push does: the note states to store, in order, and the revision the
/// store is at afterwards.
#[derive(Debug, Clone)]
pub struct PushPlan {
    pub writes: Vec<RevisionedChange>,
    pub revision: u64,
}

fn find_in_writes(writes: &Vec<RevisionedChange>, id: &String) -> (r: Option<SyncChange>)
    ensures
        match r {
            Some(c) => last_write(revisioned_view(writes@), id@) == Some(c@),
            None => last_write(revisioned_view(writes@), id@) is None,
        },
{
    let mut i = writes.len();
    assert(writes@.take(i as int) =~= writes@);
    while i > 0
        invariant
            i <= writes@.len(),
            last_write(revisioned_view(writes@), id@) == last_write(
                revisioned_view(writes@.take(i as int)),
                id@,
            ),
        decreases i,
    {
        assert(revisioned_view(writes@.take(i as int)).drop_last() =~= revisioned_view(
            writes@.take(i - 1),
        ));
        assert(revisioned_view(writes@.take(i as int)).last() == writes@[i - 1]@);
        if writes[i - 1].note.id == *id {
            return Some(writes[i - 1].note.clone_change());
        }
        i = i - 1;
    }
    assert(revisioned_view(writes@.take(0)) =~= Seq::<RevisionedView>::empty());
    None
}

fn find_stored(stored: &Vec<SyncChange>, id: &String) -> (r: Option<SyncChange>)
    ensures
        match r {
            Some(c) => lookup(notes_view(stored@), id@) == Some(c@),
            None => lookup(notes_view(stored@), id@) is None,
        },
{
    let mut i: usize = 0;
    assert(stored@.subrange(0, stored@.len() as int) =~= stored@);
    while i < stored.len()
        invariant
            i <= stored@.len(),
            lookup(notes_view(stored@), id@) == lookup(
                notes_view(stored@.subrange(i as int, stored@.len() as int)),
                id@,
            ),
        decreases stored@.len() - i,
    {
        let ghost rest = notes_view(stored@.subrange(i as int, stored@.len() as int));
        assert(rest.drop_first() =~= notes_view(stored@.subrange(i + 1, stored@.len() as int)));
        assert(rest[0] == stored@[i as int]@);
        if stored[i].id == *id {
            return Some(stored[i].clone_change());
        }
        i = i + 1;
    }
    assert(notes_view(stored@.subrange(i as int, stored@.len() as int)) =~= Seq::<NoteView>::empty());
    None
}

proof fn lemma_push_writes_len(stored: Seq<NoteView>, start: nat, device: Seq<char>, changes: Seq<NoteView>)
    ensures
        push_writes(stored, start, device, changes).len() <= changes.len(),
    decreases changes.len(),
{
    if changes.len() > 0 {
        lemma_push_writes_len(stored, start, device, changes.drop_last());
    }
}

/// Plans a push against the notes currently stored for the pushed ids
/// (`stored`) when the store is at revision `current_revision`: each change
/// (with the request's device id filled in where it has none) is accepted
/// unless the server's latest state of that note is newer, or equally new and
/// identical; accepted changes get consecutive revisions.
pub fn plan_push(stored: &Vec<SyncChange>, current_revision: u64, request: &PushRequest) -> (plan:
    PushPlan)
    requires
        current_revision + request.changes@.len() <= u64::MAX,
    ensures
        revisioned_view(plan.writes@) == push_writes(
            notes_view(stored@),
            current_revision as nat,
            request.device_id@,
            notes_view(request.changes@),
        ),
        plan.revision == current_revision + plan.writes@.len(),
{
    let ghost sv = notes_view(stored@);
    let ghost cv = notes_view(request.changes@);
    let mut writes: Vec<RevisionedChange> = Vec::new();
    assert(revisioned_view(writes@) =~= Seq::<RevisionedView>::empty());
    let n = request.changes.len();
    for i in 0..n
        invariant
            n == request.changes@.len(),
            current_revision + n <= u64::MAX,
            sv == notes_view(stored@),
            cv == notes_view(request.changes@),
            revisioned_view(writes@) == push_writes(
                sv,
                current_revision as nat,
                request.device_id@,
                cv.take(i as int),
            ),
            writes@.len() <= i,
    {
        proof {
            assert(cv.take(i + 1).drop_last() =~= cv.take(i as int));
            assert(cv.take(i + 1).last() == request.changes@[i as int]@);
        }
        let mut change = request.changes[i].clone_change();
        if is_blank_str(change.device_id.as_str()) {
            change.device_id = request.device_id.clone();
        }
        let ghost c = with_device(cv[i as int], request.device_id@);
        assert(change@ == c);
        let latest_state = match find_in_writes(&writes, &change.id) {
            Some(w) => Some(w),
            None => find_stored(stored, &change.id),
        };
        let accepted = match &latest_state {
            Some(existing) => {
                let server_time = existing.change_time();
                let incoming_time = change.change_time();
                !(incoming_time.is_before(&server_time) || (server_time.same_instant(&incoming_time)
                    && existing.same_state(&change)))
            },
            None => true,
        };
        if accepted {
            let revision = current_revision + writes.len() as u64 + 1;
            let ghost before = revisioned_view(writes@);
            writes.push(RevisionedChange { revision, note: change });
            assert(revisioned_view(writes@) =~= before.push(
                RevisionedView { revision: (current_revision + before.len() + 1) as nat, note: c },
            ));
        }
    }
    assert(cv.take(n as int) =~= cv);
    let revision = current_revision + writes.len() as u64;
    PushPlan { writes, revision }
}

/// Every write of a push is stamped with the next revision: the k-th write gets
/// `start + k + 1`, so revisions only grow and the store's revision after the
/// push is `start` plus the number of accepted changes.
pub proof fn lemma_push_revisions_consecutive(
    stored: Seq<NoteView>,
    start: nat,
    device: Seq<char>,
    changes: Seq<NoteView>,
)
    ensures
        forall|k: int|
            0 <= k < push_writes(stored, start, device, changes).len() ==> #[trigger] push_writes(
                stored,
                start,
                device,
                changes,
            )[k].revision == start + k + 1,
    decreases changes.len(),
{
    if changes.len() > 0 {
        lemma_push_revisions_consecutive(stored, start, device, changes.drop_last());
    }
}

/// Last writer wins: a write never replaces a newer state of the same note,
/// and never rewrites an equally new identical state.
pub proof fn lemma_push_never_regresses(
    stored: Seq<NoteView>,
    start: nat,
    device: Seq<char>,
    changes: Seq<NoteView>,
    k: int,
)
    requires
        0 <= k < push_writes(stored, start, device, changes).len(),
    ensures
        ({
            let w = push_writes(stored, start, device, changes);
            match latest(stored, w.take(k), w[k].note.id) {
                Some(e) => !keeps_existing(e, w[k].note),
                None => true,
            }
        }),
    decreases changes.len(),
{
    let prev = push_writes(stored, start, device, changes.drop_last());
    let w = push_writes(stored, start, device, changes);
    if k < prev.len() {
        lemma_push_never_regresses(stored, start, device, changes.drop_last(), k);
        assert(w.take(k) =~= prev.take(k));
        assert(w[k] == prev[k]);
    } else {
        assert(w.take(k) =~= prev);
    }
}

/// A change strictly newer than the server's latest state of its note (or of
/// a note the server does not have) is always stored.
pub proof fn lemma_newer_change_is_accepted(
    stored: Seq<NoteView>,
    start: nat,
    device: Seq<char>,
    changes: Seq<NoteView>,
)
    requires
        changes.len() > 0,
        ({
            let prev = push_writes(stored, start, device, changes.drop_last());
            let c = with_device(changes.last(), device);
            match latest(stored, prev, c.id) {
                Some(e) => ts_lt(change_time(e), change_time(c)),
                None => true,
            }
        }),
    ensures
        ({
            let prev = push_writes(stored, start, device, changes.drop_last());
            push_writes(stored, start, device, changes) == prev.push(
                RevisionedView {
                    revision: start + prev.len() + 1,
                    note: with_device(changes.last(), device),
                },
            )
        }),
{
    let prev = push_writes(stored, start, device, changes.drop_last());
    let c = with_device(changes.last(), device);
    if let Some(e) = latest(stored, prev, c.id) {
        crate::time::lemma_ts_order(change_time(e), change_time(c), change_time(c));
    }
}

/// Pushing back states that the server already holds as the latest state of
/// their notes writes nothing and leaves the revision where it was.
pub proof fn lemma_replay_is_noop(
    stored: Seq<NoteView>,
    start: nat,
    device: Seq<char>,
    changes: Seq<NoteView>,
)
    requires
        forall|i: int|
            0 <= i < changes.len() ==> lookup(stored, with_device(#[trigger] changes[i], device).id)
                == Some(with_device(changes[i], device)),
    ensures
        push_writes(stored, start, device, changes).len() == 0,
    decreases changes.len(),
{
    if changes.len() > 0 {
        let init = changes.drop_last();
        assert forall|i: int| 0 <= i < init.len() implies lookup(
            stored,
            with_device(#[trigger] init[i], device).id,
        ) == Some(with_device(init[i], device)) by {
            assert(init[i] == changes[i]);
        }
        lemma_replay_is_noop(stored, start, device, init);
        let c = with_device(changes.last(), device);
        assert(lookup(stored, c.id) == Some(c)) by {
            assert(changes.last() == changes[changes.len() - 1]);
        }
    }
}

/// The server's state `l` of a note settles the incoming state `c`: it holds
/// a state that it keeps against `c`.
pub open spec fn settles(l: Option<NoteView>, c: NoteView) -> bool {
    l matches Some(e) && keeps_existing(e, c)
}

/// No two changes in `changes` are for the same note.
pub open spec fn distinct_note_ids(changes: Seq<NoteView>) -> bool {
    forall|i: int, j: int| 0 <= i < j < changes.len() ==> (#[trigger] changes[i]).id != (#[trigger] changes[j]).id
}

/// Pushing changes that the server's states all settle writes nothing.
pub proof fn lemma_settled_changes_write_nothing(
    stored: Seq<NoteView>,
    start: nat,
    device: Seq<char>,
    changes: Seq<NoteView>,
)
    requires
        forall|i: int|
            0 <= i < changes.len() ==> settles(
                lookup(stored, with_device(#[trigger] changes[i], device).id),
                with_device(changes[i], device),
            ),
    ensures
        push_writes(stored, start, device, changes).len() == 0,
    decreases changes.len(),
{
    if changes.len() > 0 {
        let init = changes.drop_last();
        assert forall|i: int| 0 <= i < init.len() implies settles(
            lookup(stored, with_device(#[trigger] init[i], device).id),
            with_device(init[i], device),
        ) by {
            assert(init[i] == changes[i]);
        }
        lemma_settled_changes_write_nothing(stored, start, device, init);
        assert(changes.last() == changes[changes.len() - 1]);
    }
}

/// After a push of changes for distinct notes, the server's latest state of
/// each of those notes settles the change pushed for it.
pub proof fn lemma_push_settles_its_changes(
    stored: Seq<NoteView>,
    start: nat,
    device: Seq<char>,
    changes: Seq<NoteView>,
)
    requires
        distinct_note_ids(changes),
    ensures
        forall|i: int|
            0 <= i < changes.len() ==> settles(
                latest(stored, push_writes(stored, start, device, changes), (#[trigger] changes[i]).id),
                with_device(changes[i], device),
            ),
    decreases changes.len(),
{
    if changes.len() > 0 {
        let init = changes.drop_last();
        let prev = push_writes(stored, start, device, init);
        let w = push_writes(stored, start, device, changes);
        let c = with_device(changes.last(), device);
        assert forall|i: int, j: int| 0 <= i < j < init.len() implies (#[trigger] init[i]).id != (
        #[trigger] init[j]).id by {
            assert(init[i] == changes[i] && init[j] == changes[j]);
        }
        lemma_push_settles_its_changes(stored, start, device, init);
        assert forall|i: int| 0 <= i < changes.len() implies settles(
            latest(stored, w, (#[trigger] changes[i]).id),
            with_device(changes[i], device),
        ) by {
            if i < init.len() {
                assert(init[i] == changes[i]);
                assert(changes[i].id != changes[changes.len() - 1].id);
                if w != prev {
                    assert(w.drop_last() =~= prev);
                    assert(w.last().note == c);
                    assert(last_write(w, changes[i].id) == last_write(prev, changes[i].id));
                }
            } else {
                assert(changes[i] == changes.last());
                if w != prev {
                    assert(w.last().note == c);
                    assert(last_write(w, c.id) == Some(c));
                    crate::time::lemma_ts_order(change_time(c), change_time(c), change_time(c));
                }
            }
        }
    }
}

/// Replaying a push writes nothing: once a push of changes for distinct
/// notes has been applied (the store's state of each note being the latest
/// one after its writes), pushing the same changes again is refused
/// change by change, and the revision stays where it is.
pub proof fn lemma_replayed_push_writes_nothing(
    stored: Seq<NoteView>,
    start: nat,
    device: Seq<char>,
    changes: Seq<NoteView>,
    after: Seq<NoteView>,
    next_start: nat,
)
    requires
        distinct_note_ids(changes),
        forall|id: Seq<char>|
            #[trigger] lookup(after, id) == latest(stored, push_writes(stored, start, device, changes), id),
    ensures
        push_writes(after, next_start, device, changes).len() == 0,
{
    lemma_push_settles_its_changes(stored, start, device, changes);
    assert forall|i: int| 0 <= i < changes.len() implies settles(
        lookup(after, with_device(#[trigger] changes[i], device).id),
        with_device(changes[i], device),
    ) by {
        assert(with_device(changes[i], device).id == changes[i].id);
        assert(lookup(after, changes[i].id) == latest(
            stored,
            push_writes(stored, start, device, changes),
            changes[i].id,
        ));
    }
    lemma_settled_changes_write_nothing(after, next_start, device, changes);
}

/// Whether the state `f` is at least as new as `e` (the same note or not).
pub open spec fn at_least_as_new(f: NoteView, e: NoteView) -> bool {
    !ts_lt(change_time(f), change_time(e))
}

/// One more push step never makes the latest state of any note older.
proof fn lemma_push_step_monotone(
    stored: Seq<NoteView>,
    start: nat,
    device: Seq<char>,
    changes: Seq<NoteView>,
    id: Seq<char>,
)
    requires
        changes.len() > 0,
    ensures
        ({
            let prev = push_writes(stored, start, device, changes.drop_last());
            let cur = push_writes(stored, start, device, changes);
            match latest(stored, prev, id) {
                Some(e) => latest(stored, cur, id) matches Some(f) && at_least_as_new(f, e),
                None => true,
            }
        }),
{
    let prev = push_writes(stored, start, device, changes.drop_last());
    let cur = push_writes(stored, start, device, changes);
    let c = with_device(changes.last(), device);
    if let Some(e) = latest(stored, prev, id) {
        crate::time::lemma_ts_order(change_time(e), change_time(c), change_time(e));
        if cur != prev {
            assert(cur.drop_last() == prev);
            assert(cur.last().note == c);
        }
    }
}

/// The latest state of the note `c` is at least as new as `c`.
pub open spec fn holds_at_least(stored: Seq<NoteView>, writes: Seq<RevisionedView>, c: NoteView) -> bool {
    match latest(stored, writes, c.id) {
        Some(f) => at_least_as_new(f, c),
        None => false,
    }
}

/// Last writer wins, as a whole: after a push, the server's latest state of
/// every note is at least as new as the state it held before, and at least
/// as new as every change pushed for that note.
pub proof fn lemma_push_keeps_newest(
    stored: Seq<NoteView>,
    start: nat,
    device: Seq<char>,
    changes: Seq<NoteView>,
)
    ensures
        forall|i: int|
            0 <= i < stored.len() && lookup(stored, stored[i].id) == Some(stored[i]) ==> holds_at_least(
                stored,
                push_writes(stored, start, device, changes),
                #[trigger] stored[i],
            ),
        forall|j: int|
            0 <= j < changes.len() ==> holds_at_least(
                stored,
                push_writes(stored, start, device, changes),
                #[trigger] with_device(changes[j], device),
            ),
    decreases changes.len(),
{
    let w = push_writes(stored, start, device, changes);
    if changes.len() == 0 {
        assert forall|i: int|
            0 <= i < stored.len() && lookup(stored, stored[i].id) == Some(stored[i]) implies holds_at_least(
            stored,
            w,
            #[trigger] stored[i],
        ) by {
            crate::time::lemma_ts_order(change_time(stored[i]), change_time(stored[i]), change_time(stored[i]));
        }
    } else {
        let init = changes.drop_last();
        lemma_push_keeps_newest(stored, start, device, init);
        let prev = push_writes(stored, start, device, init);
        assert forall|i: int|
            0 <= i < stored.len() && lookup(stored, stored[i].id) == Some(stored[i]) implies holds_at_least(
            stored,
            w,
            #[trigger] stored[i],
        ) by {
            let e = stored[i];
            lemma_push_step_monotone(stored, start, device, changes, e.id);
            assert(holds_at_least(stored, prev, e));
            let m = latest(stored, prev, e.id)->Some_0;
            let f = latest(stored, w, e.id)->Some_0;
            crate::time::lemma_ts_order(change_time(f), change_time(m), change_time(e));
        }
        assert forall|j: int| 0 <= j < changes.len() implies holds_at_least(
            stored,
            w,
            #[trigger] with_device(changes[j], device),
        ) by {
            let cj = with_device(changes[j], device);
            lemma_push_step_monotone(stored, start, device, changes, cj.id);
            if j < init.len() {
                assert(init[j] == changes[j]);
                assert(holds_at_least(stored, prev, cj));
                let m = latest(stored, prev, cj.id)->Some_0;
                let f = latest(stored, w, cj.id)->Some_0;
                crate::time::lemma_ts_order(change_time(f), change_time(m), change_time(cj));
            } else {
                assert(changes[j] == changes.last());
                let c = cj;
                crate::time::lemma_ts_order(change_time(c), change_time(c), change_time(c));
                match latest(stored, prev, c.id) {
                    Some(e) => {
                        crate::time::lemma_ts_order(change_time(e), change_time(c), change_time(e));
                        if w == prev {
                            assert(keeps_existing(e, c));
                        } else {
                            assert(w.last().note == c);
                        }
                    },
                    None => {
                        assert(w.last().note == c);
                    },
                }
            }
        }
    }
}

/// The tombstone that a restore writes for a note the backup lacks: deleted at
/// the later of the note's own change time and the restore time, and updated
/// no earlier than that.
pub open spec fn tombstone_of(prev: NoteView, at: Timestamp) -> NoteView {
    let d = ts_max(change_time(prev), at);
    NoteView { updated_at: ts_max(prev.updated_at, d), deleted_at: Some(d), ..prev }
}

/// The tombstones a restore writes, in the order of `previous`: one for each
/// previously stored note whose id the restored data lacks, stamped with the
/// next revisions after `start`.
pub open spec fn restore_tombstones(
    previous: Seq<NoteView>,
    restored_ids: Seq<Seq<char>>,
    start: nat,
    at: Timestamp,
) -> Seq<RevisionedView>
    decreases previous.len(),
{
    if previous.len() == 0 {
        Seq::empty()
    } else {
        let prev = restore_tombstones(previous.drop_last(), restored_ids, start, at);
        let p = previous.last();
        if restored_ids.contains(p.id) {
            prev
        } else {
            prev.push(RevisionedView { revision: start + prev.len() + 1, note: tombstone_of(p, at) })
        }
    }
}

/// By how much a restore shifts every restored revision: by the revision the
/// store was at before the restore, so that every restored note (stamped from
/// 1) is handed out again after any cursor a client may hold.
pub open spec fn restore_offset_spec(previous_revision: nat) -> nat {
    previous_revision
}

/// How far a restore shifts the restored revisions, given the store's
/// revision before the restore and the backup's highest revision; `None`
/// when the shifted revisions would not fit in 64 bits.
pub fn restore_rebase_offset(previous_revision: u64, restored_revision: u64) -> (r: Option<u64>)
    ensures
        r is Some <==> restored_revision + previous_revision <= u64::MAX,
        r is Some ==> r == Some(restore_offset_spec(previous_revision as nat) as u64),
{
    if restored_revision <= u64::MAX - previous_revision {
        Some(previous_revision)
    } else {
        None
    }
}

impl SyncChange {
    /// The tombstone of this note for a restore at `at`.
    pub fn tombstone(&self, at: Timestamp) -> (r: SyncChange)
        ensures
            r@ == tombstone_of(self@, at),
    {
        let mut t = self.clone_change();
        let deleted_at = self.change_time().later(&at);
        t.updated_at = t.updated_at.later(&deleted_at);
        t.deleted_at = Some(deleted_at);
        t
    }
}

/// The tombstones of a restore for `previous` taken in the given order.
fn restore_tombstones_in_order(
    previous: &Vec<SyncChange>,
    restored_ids: &Vec<String>,
    current_revision: u64,
    restore_time: Timestamp,
) -> (plan: PushPlan)
    requires
        current_revision + previous@.len() <= u64::MAX,
    ensures
        revisioned_view(plan.writes@) == restore_tombstones(
            notes_view(previous@),
            strs_view(restored_ids@),
            current_revision as nat,
            restore_time,
        ),
        plan.revision == current_revision + plan.writes@.len(),
{
    let ghost pv = notes_view(previous@);
    let ghost ids = strs_view(restored_ids@);
    let mut writes: Vec<RevisionedChange> = Vec::new();
    assert(revisioned_view(writes@) =~= Seq::<RevisionedView>::empty());
    let n = previous.len();
    for i in 0..n
        invariant
            n == previous@.len(),
            current_revision + n <= u64::MAX,
            pv == notes_view(previous@),
            ids == strs_view(restored_ids@),
            revisioned_view(writes@) == restore_tombstones(
                pv.take(i as int),
                ids,
                current_revision as nat,
                restore_time,
            ),
            writes@.len() <= i,
    {
        proof {
            assert(pv.take(i + 1).drop_last() =~= pv.take(i as int));
            assert(pv.take(i + 1).last() == previous@[i as int]@);
        }
        if !contains_string(restored_ids, &previous[i].id) {
            let t = previous[i].tombstone(restore_time);
            let revision = current_revision + writes.len() as u64 + 1;
            let ghost before = revisioned_view(writes@);
            writes.push(RevisionedChange { revision, note: t });
            assert(revisioned_view(writes@) =~= before.push(
                RevisionedView {
                    revision: (current_revision + before.len() + 1) as nat,
                    note: tombstone_of(pv[i as int], restore_time),
                },
            ));
        }
    }
    assert(pv.take(n as int) =~= pv);
    let revision = current_revision + writes.len() as u64;
    PushPlan { writes, revision }
}

proof fn lemma_restore_tombstones_shape(
    previous: Seq<NoteView>,
    ids: Seq<Seq<char>>,
    start: nat,
    at: Timestamp,
)
    ensures
        restore_tombstones(previous, ids, start, at).len() <= previous.len(),
        forall|k: int|
            0 <= k < restore_tombstones(previous, ids, start, at).len() ==> #[trigger] restore_tombstones(
                previous,
                ids,
                start,
                at,
            )[k].revision == start + k + 1,
        forall|k: int|
            0 <= k < restore_tombstones(previous, ids, start, at).len() ==> {
                let n = #[trigger] restore_tombstones(previous, ids, start, at)[k].note;
                &&& !ids.contains(n.id)
                &&& n.deleted_at is Some
            },
    decreases previous.len(),
{
    if previous.len() > 0 {
        lemma_restore_tombstones_shape(previous.drop_last(), ids, start, at);
    }
}

/// After a restore, every restored note (stamped from 1) gets a revision
/// above the one the store was at before, which is the highest cursor a
/// client may hold; and every tombstone for a note the backup lacks comes
/// after that revision too.
pub proof fn lemma_restore_moves_past_previous_revision(
    previous: Seq<NoteView>,
    ids: Seq<Seq<char>>,
    previous_revision: nat,
    restored_revision: nat,
    restored_note_revision: nat,
    at: Timestamp,
)
    requires
        1 <= restored_note_revision <= restored_revision,
    ensures
        restored_note_revision + restore_offset_spec(previous_revision) > previous_revision,
        ({
            let start = restored_revision + restore_offset_spec(previous_revision);
            let t = restore_tombstones(previous, ids, start, at);
            forall|k: int| 0 <= k < t.len() ==> #[trigger] t[k].revision > previous_revision
        }),
{
    let start = restored_revision + restore_offset_spec(previous_revision);
    lemma_restore_tombstones_shape(previous, ids, start, at);
}

/// A restore tombstone is a deletion no earlier than the note's previous
/// change and no earlier than the restore, so under last-writer-wins it
/// supersedes the state that clients hold.
pub proof fn lemma_tombstone_supersedes(prev: NoteView, at: Timestamp)
    ensures
        tombstone_of(prev, at).deleted_at is Some,
        tombstone_of(prev, at).id == prev.id,
        !ts_lt(change_time(tombstone_of(prev, at)), change_time(prev)),
        !ts_lt(change_time(tombstone_of(prev, at)), at),
        !ts_lt(tombstone_of(prev, at).updated_at, change_time(tombstone_of(prev, at))),
{
}

/// Notes in ascending order of id.
pub open spec fn ids_ascending(s: Seq<SyncChange>) -> bool {
    forall|i: int, j: int| 0 <= i < j < s.len() ==> !str_lt(s[j].id@, s[i].id@)
}

/// The changes ordered by note id, ascending; changes with equal ids keep
/// their order.
pub fn sort_changes_by_id(changes: Vec<SyncChange>) -> (r: Vec<SyncChange>)
    ensures
        r@.to_multiset() == changes@.to_multiset(),
        ids_ascending(r@),
{
    let mut sorted: Vec<SyncChange> = Vec::new();
    let mut rest = changes;
    let ghost initial_items = rest@.to_multiset();
    proof {
        broadcast use vstd::multiset::group_multiset_axioms;
        broadcast use vstd::seq_lib::group_to_multiset_ensures;
        assert(sorted@ =~= Seq::<SyncChange>::empty());
        assert(sorted@.to_multiset().add(rest@.to_multiset()) =~= initial_items);
    }
    while rest.len() > 0
        invariant
            sorted@.to_multiset().add(rest@.to_multiset()) == initial_items,
            ids_ascending(sorted@),
        decreases rest@.len(),
    {
        let ghost before = rest@;
        let item = rest.pop().unwrap();
        proof {
            assert(before =~= rest@.push(item));
        }
        let mut p: usize = 0;
        while p < sorted.len() && !str_less(item.id.as_str(), sorted[p].id.as_str())
            invariant
                p <= sorted@.len(),
                forall|k: int| 0 <= k < p ==> !str_lt(item.id@, sorted@[k].id@),
            decreases sorted@.len() - p,
        {
            p = p + 1;
        }
        let ghost old_sorted = sorted@;
        proof {
            assert forall|i: int, j: int|
                0 <= i < j < old_sorted.len() + 1 implies !str_lt(
                old_sorted.insert(p as int, item)[j].id@,
                old_sorted.insert(p as int, item)[i].id@,
            ) by {
                let ns = old_sorted.insert(p as int, item);
                if j < p {
                } else if j == p {
                    assert(ns[j] == item);
                } else if i == p {
                    assert(ns[i] == item);
                    assert(ns[j] == old_sorted[j - 1]);
                    lemma_str_lt_order(old_sorted[j - 1].id@, item.id@, old_sorted[p as int].id@);
                    lemma_str_lt_order(item.id@, old_sorted[p as int].id@, old_sorted[j - 1].id@);
                    lemma_str_lt_order(old_sorted[p as int].id@, old_sorted[j - 1].id@, item.id@);
                } else if i < p {
                    assert(ns[i] == old_sorted[i]);
                    assert(ns[j] == old_sorted[j - 1]);
                } else {
                    assert(ns[i] == old_sorted[i - 1]);
                    assert(ns[j] == old_sorted[j - 1]);
                }
            }
        }
        sorted.insert(p, item);
        proof {
            broadcast use vstd::multiset::group_multiset_axioms;
            vstd::seq_lib::to_multiset_insert(old_sorted, p as int, item);
            rest@.to_multiset_ensures();
            assert(rest@.push(item).to_multiset() =~= rest@.to_multiset().insert(item));
            assert(sorted@.to_multiset().add(rest@.to_multiset()) =~= initial_items);
        }
    }
    proof {
        broadcast use vstd::multiset::group_multiset_axioms;
        broadcast use vstd::seq_lib::group_to_multiset_ensures;
        assert(rest@ =~= Seq::<SyncChange>::empty());
        assert(sorted@.to_multiset() =~= initial_items);
    }
    sorted
}

/// The tombstones a restore writes: for each note stored before the restore
/// whose id the restored backup lacks, in ascending id order, a deletion at
/// `restore_time` (or at the note's own later time), under the next revisions.
pub fn plan_restore_tombstones(
    previous: Vec<SyncChange>,
    restored_ids: &Vec<String>,
    current_revision: u64,
    restore_time: Timestamp,
) -> (plan: PushPlan)
    requires
        current_revision + previous@.len() <= u64::MAX,
    ensures
        exists|ordered: Seq<SyncChange>|
            {
                &&& ordered.to_multiset() == previous@.to_multiset()
                &&& ids_ascending(ordered)
                &&& revisioned_view(plan.writes@) == restore_tombstones(
                    #[trigger] notes_view(ordered),
                    strs_view(restored_ids@),
                    current_revision as nat,
                    restore_time,
                )
            },
        plan.revision == current_revision + plan.writes@.len(),
{
    let ordered = sort_changes_by_id(previous);
    proof {
        ordered@.to_multiset_ensures();
        previous@.to_multiset_ensures();
    }
    let plan = restore_tombstones_in_order(&ordered, restored_ids, current_revision, restore_time);
    assert(ordered@.to_multiset() == previous@.to_multiset() && ids_ascending(ordered@)
        && revisioned_view(plan.writes@) == restore_tombstones(notes_view(ordered@), strs_view(restored_ids@), current_revision as nat, restore_time));
    plan
}

/// No two notes share an id.
pub open spec fn distinct_ids(s: Seq<SyncChange>) -> bool {
    forall|i: int, j: int| 0 <= i < j < s.len() ==> s[i].id@ != s[j].id@
}

proof fn lemma_ids_equal_if_neither_less(x: Seq<char>, y: Seq<char>)
    requires
        !str_lt(x, y),
        !str_lt(y, x),
    ensures
        x == y,
{
    lemma_str_lt_order(x, y, x);
}

proof fn lemma_permutation_keeps_distinct_ids(p: Seq<SyncChange>, a: Seq<SyncChange>)
    requires
        a.to_multiset() == p.to_multiset(),
        distinct_ids(p),
    ensures
        distinct_ids(a),
{
    broadcast use vstd::seq_lib::group_to_multiset_ensures;
    assert(p.no_duplicates()) by {
        assert forall|i: int, j: int| 0 <= i < p.len() && 0 <= j < p.len() && i != j implies p[i] != p[j] by {
            if i < j {
                assert(p[i].id@ != p[j].id@);
            } else {
                assert(p[j].id@ != p[i].id@);
            }
        }
    }
    p.lemma_multiset_has_no_duplicates();
    a.lemma_multiset_has_no_duplicates_conv();
    assert forall|i: int, j: int| 0 <= i < j < a.len() implies a[i].id@ != a[j].id@ by {
        assert(a.contains(a[i]) && a.contains(a[j]));
        assert(p.to_multiset().count(a[i]) > 0 && p.to_multiset().count(a[j]) > 0);
        let x = choose|x: int| 0 <= x < p.len() && p[x] == a[i];
        let y = choose|y: int| 0 <= y < p.len() && p[y] == a[j];
        assert(a[i] != a[j]);
        if x < y {
            assert(p[x].id@ != p[y].id@);
        } else if y < x {
            assert(p[y].id@ != p[x].id@);
        }
    }
}

proof fn lemma_ascending_orders_agree(a: Seq<SyncChange>, b: Seq<SyncChange>)
    requires
        a.to_multiset() == b.to_multiset(),
        ids_ascending(a),
        ids_ascending(b),
        distinct_ids(a),
    ensures
        a == b,
    decreases a.len(),
{
    broadcast use vstd::seq_lib::group_to_multiset_ensures;
    broadcast use vstd::multiset::group_multiset_axioms;
    a.to_multiset_ensures();
    b.to_multiset_ensures();
    assert(a.len() == b.len());
    if a.len() == 0 {
        assert(a =~= b);
    } else {
        assert(b.to_multiset().count(a[0]) > 0);
        let k = choose|k: int| 0 <= k < b.len() && b[k] == a[0];
        assert(a.to_multiset().count(b[0]) > 0);
        let j = choose|j: int| 0 <= j < a.len() && a[j] == b[0];
        lemma_str_lt_order(a[0].id@, a[0].id@, a[0].id@);
        lemma_str_lt_order(b[0].id@, b[0].id@, b[0].id@);
        if k > 0 {
            assert(!str_lt(b[k].id@, b[0].id@));
        }
        if j > 0 {
            assert(!str_lt(a[j].id@, a[0].id@));
        }
        lemma_ids_equal_if_neither_less(a[0].id@, b[0].id@);
        if j > 0 {
            assert(a[0].id@ != a[j].id@);
        }
        assert(b[0] == a[0]);
        let a1 = a.drop_first();
        let b1 = b.drop_first();
        assert(a.remove(0) =~= a1);
        assert(b.remove(0) =~= b1);
        assert(a1.to_multiset() =~= b1.to_multiset());
        assert forall|i: int, l: int| 0 <= i < l < a1.len() implies !str_lt(a1[l].id@, a1[i].id@) by {
            assert(a1[l] == a[l + 1] && a1[i] == a[i + 1]);
        }
        assert forall|i: int, l: int| 0 <= i < l < b1.len() implies !str_lt(b1[l].id@, b1[i].id@) by {
            assert(b1[l] == b[l + 1] && b1[i] == b[i + 1]);
        }
        assert forall|i: int, l: int| 0 <= i < l < a1.len() implies a1[i].id@ != a1[l].id@ by {
            assert(a1[l] == a[l + 1] && a1[i] == a[i + 1]);
        }
        lemma_ascending_orders_agree(a1, b1);
        assert(a =~= b) by {
            assert forall|i: int| 0 <= i < a.len() implies a[i] == b[i] by {
                if i > 0 {
                    assert(a[i] == a1[i - 1] && b[i] == b1[i - 1]);
                }
            }
        }
    }
}

/// Notes with distinct ids have exactly one order by ascending id; so the
/// tombstones a restore plans are determined by the notes alone, whatever
/// order they were handed over in.
pub proof fn lemma_id_order_unique(previous: Seq<SyncChange>, a: Seq<SyncChange>, b: Seq<SyncChange>)
    requires
        distinct_ids(previous),
        a.to_multiset() == previous.to_multiset(),
        b.to_multiset() == previous.to_multiset(),
        ids_ascending(a),
        ids_ascending(b),
    ensures
        a == b,
{
    lemma_permutation_keeps_distinct_ids(previous, a);
    lemma_ascending_orders_agree(a, b);
}

/// Every note a push writes is one of the pushed changes as it was sent,
/// except that a blank device id is replaced by the pushing device's id: a
/// change that names its own device keeps that device.
pub proof fn lemma_push_writes_are_the_changes(
    stored: Seq<NoteView>,
    start: nat,
    device: Seq<char>,
    changes: Seq<NoteView>,
)
    ensures
        forall|k: int|
            #![trigger push_writes(stored, start, device, changes)[k]]
            0 <= k < push_writes(stored, start, device, changes).len() ==> exists|j: int|
                #![trigger changes[j]]
                0 <= j < changes.len() && sent_as(changes[j], device, push_writes(stored, start, device, changes)[k].note),
    decreases changes.len(),
{
    if changes.len() > 0 {
        let init = changes.drop_last();
        lemma_push_writes_are_the_changes(stored, start, device, init);
        let prev = push_writes(stored, start, device, init);
        let w = push_writes(stored, start, device, changes);
        assert forall|k: int| #![trigger w[k]] 0 <= k < w.len() implies exists|j: int|
            #![trigger changes[j]]
            0 <= j < changes.len() && sent_as(changes[j], device, w[k].note) by {
            if k < prev.len() {
                assert(w[k] == prev[k]);
                let j = choose|j: int|
                    #![trigger init[j]]
                    0 <= j < init.len() && sent_as(init[j], device, prev[k].note);
                assert(init[j] == changes[j]);
            } else {
                assert(w[k].note == with_device(changes.last(), device));
                assert(changes.last() == changes[changes.len() - 1]);
            }
        }
    }
}

/// The note `w` is the change `c` as sent, except that a blank device id is
/// replaced by `device`.
pub open spec fn sent_as(c: NoteView, device: Seq<char>, w: NoteView) -> bool {
    &&& !is_blank(c.device_id) ==> w == c
    &&& is_blank(c.device_id) ==> w == NoteView { device_id: device, ..c }
}

/// A change that names its device and is already stored exactly as sent is
/// never written again, whatever device pushes it back: pushing such changes
/// writes nothing and leaves the revision where it is.
pub proof fn lemma_stored_changes_are_not_rewritten(
    stored: Seq<NoteView>,
    start: nat,
    device: Seq<char>,
    changes: Seq<NoteView>,
)
    requires
        forall|i: int|
            0 <= i < changes.len() ==> !is_blank((#[trigger] changes[i]).device_id) && lookup(
                stored,
                changes[i].id,
            ) == Some(changes[i]),
    ensures
        push_writes(stored, start, device, changes).len() == 0,
{
    assert forall|i: int| 0 <= i < changes.len() implies lookup(
        stored,
        with_device(#[trigger] changes[i], device).id,
    ) == Some(with_device(changes[i], device)) by {
        assert(with_device(changes[i], device) == changes[i]);
    }
    lemma_replay_is_noop(stored, start, device, changes);
}

/// A restore writes a tombstone for every note stored before it whose id
/// the restored data lacks, whether or not that note was already deleted:
/// the tombstone has the note's id, is a deletion, and is deleted no earlier
/// than the restore.
pub proof fn lemma_restore_tombstones_complete(
    previous: Seq<NoteView>,
    ids: Seq<Seq<char>>,
    start: nat,
    at: Timestamp,
)
    ensures
        forall|i: int|
            0 <= i < previous.len() && !ids.contains(#[trigger] previous[i].id) ==> exists|k: int|
                0 <= k < restore_tombstones(previous, ids, start, at).len() && {
                    let n = #[trigger] restore_tombstones(previous, ids, start, at)[k].note;
                    &&& n.id == previous[i].id
                    &&& n.deleted_at matches Some(d) && !ts_lt(d, at)
                },
    decreases previous.len(),
{
    if previous.len() > 0 {
        let init = previous.drop_last();
        lemma_restore_tombstones_complete(init, ids, start, at);
        let prev = restore_tombstones(init, ids, start, at);
        let t = restore_tombstones(previous, ids, start, at);
        let p = previous.last();
        crate::time::lemma_ts_order(change_time(p), at, at);
        crate::time::lemma_ts_order(at, change_time(p), at);
        assert forall|i: int|
            0 <= i < previous.len() && !ids.contains(#[trigger] previous[i].id) implies exists|k: int|
            0 <= k < t.len() && {
                let n = #[trigger] t[k].note;
                &&& n.id == previous[i].id
                &&& n.deleted_at matches Some(d) && !ts_lt(d, at)
            } by {
            if i < init.len() {
                assert(init[i] == previous[i]);
                let k = choose|k: int|
                    0 <= k < prev.len() && {
                        let n = #[trigger] prev[k].note;
                        &&& n.id == init[i].id
                        &&& n.deleted_at matches Some(d) && !ts_lt(d, at)
                    };
                assert(t[k] == prev[k]);
            } else {
                assert(previous[i] == p);
                let k = prev.len() as int;
                assert(t[k].note == tombstone_of(p, at));
            }
        }
    }
}

/// A restore plan tombstones every note stored before the restore whose id
/// the restored data lacks, in whatever order the notes were given.
pub proof fn lemma_restore_plan_complete(
    previous: Seq<SyncChange>,
    ordered: Seq<SyncChange>,
    ids: Seq<Seq<char>>,
    start: nat,
    at: Timestamp,
)
    requires
        ordered.to_multiset() == previous.to_multiset(),
    ensures
        forall|i: int|
            0 <= i < previous.len() && !ids.contains(#[trigger] previous[i].id@) ==> exists|k: int|
                0 <= k < restore_tombstones(notes_view(ordered), ids, start, at).len() && {
                    let n = #[trigger] restore_tombstones(notes_view(ordered), ids, start, at)[k].note;
                    &&& n.id == previous[i].id@
                    &&& n.deleted_at matches Some(d) && !ts_lt(d, at)
                },
{
    broadcast use vstd::seq_lib::group_to_multiset_ensures;
    let ov = notes_view(ordered);
    let t = restore_tombstones(ov, ids, start, at);
    lemma_restore_tombstones_complete(ov, ids, start, at);
    assert forall|i: int|
        0 <= i < previous.len() && !ids.contains(#[trigger] previous[i].id@) implies exists|k: int|
        0 <= k < t.len() && {
            let n = #[trigger] t[k].note;
            &&& n.id == previous[i].id@
            &&& n.deleted_at matches Some(d) && !ts_lt(d, at)
        } by {
        assert(previous.contains(previous[i]));
        assert(previous.to_multiset().count(previous[i]) > 0);
        assert(ordered.contains(previous[i]));
        let m = choose|m: int| 0 <= m < ordered.len() && ordered[m] == previous[i];
        assert(ov[m] == ordered[m]@);
        assert(!ids.contains(ov[m].id));
    }
}

} // verus!

//! Keeping up with the shared inventory: each tick folds the manifests that are new.

use vstd::prelude::*;

use crate::files::{manifests, Manifest, PersistedSnapshot};
use crate::persisted_files::{after_fold, after_folds, needed, FileState, PersistedFiles};
use crate::shared_inventory::{marks_come_from_what_was_loaded, marks_with, owned_text};
use crate::wal_tail::{after_persisted, Tails, WalTailBuffer};
use crate::watermarks::NodeMarks;

verus! {

/// How far the inventory has been folded. A checkpoint is stamped with these, so that a
/// loader skips every manifest at or below them.
#[derive(Debug)]
pub struct InventoryWatermarks {
    /// The highest sequence number folded, by writer.
    pub wal: NodeMarks,
    /// The highest compaction folded, if any.
    pub compaction: Option<String>,
}

impl Default for InventoryWatermarks {
    fn default() -> (r: InventoryWatermarks)
        ensures
            r.wal@ == Map::<Seq<char>, u64>::empty(),
            r.compaction is None,
    {
        InventoryWatermarks { wal: NodeMarks::new(), compaction: None }
    }
}

/// How many manifests a tick applied.
#[derive(Debug, Clone, Copy, PartialEq, Eq, Structural)]
pub struct TickSummary {
    pub wal_snapshots: usize,
    pub compactions: usize,
}

impl TickSummary {
    /// How many there were of both kinds.
    pub fn total(&self) -> (r: usize)
        requires
            self.wal_snapshots + self.compactions <= usize::MAX,
        ensures
            r == self.wal_snapshots + self.compactions,
    {
        self.wal_snapshots + self.compactions
    }
}

/// The state once the manifests of compactions are folded in, in order, each under its
/// id.
pub open spec fn after_compactions(
    t: FileState,
    list: Seq<(String, PersistedSnapshot)>,
) -> FileState
    decreases list.len(),
{
    if list.len() == 0 {
        t
    } else {
        after_fold(
            after_compactions(t, list.drop_last()),
            list.last().1@,
            Some(list.last().0@),
        )
    }
}

/// The compaction cursor once these compactions are folded: the id of the last.
pub open spec fn next_cursor(
    cursor: Option<Seq<char>>,
    list: Seq<(String, PersistedSnapshot)>,
) -> Option<Seq<char>> {
    if list.len() > 0 {
        Some(list.last().0@)
    } else {
        cursor
    }
}

/// The state once a tick is done: the manifests of writers are folded, then those of
/// compactions, and the tombstones that the cursors have passed are dropped.
pub open spec fn after_tick(
    t: FileState,
    new_wal: Seq<PersistedSnapshot>,
    new_compactions: Seq<(String, PersistedSnapshot)>,
    wal_cursors: Map<Seq<char>, u64>,
    compaction_cursor: Option<Seq<char>>,
) -> FileState {
    let grown = after_compactions(after_folds(t, manifests(new_wal)), new_compactions);
    FileState {
        tombstones: needed(grown.tombstones, wal_cursors, compaction_cursor),
        ..grown
    }
}

/// Folds the manifests that are new, advances the cursors past them, and drops the
/// tombstones that the cursors have passed. Without new manifests nothing changes.
pub fn tick(
    files: &mut PersistedFiles,
    wal_cursors: &mut NodeMarks,
    compaction_cursor: &mut Option<String>,
    new_wal: &Vec<PersistedSnapshot>,
    new_compactions: &Vec<(String, PersistedSnapshot)>,
) -> (r: TickSummary)
    ensures
        r.wal_snapshots == new_wal.len(),
        r.compactions == new_compactions.len(),
        final(wal_cursors)@ == marks_with(old(wal_cursors)@, manifests(new_wal@)),
        owned_text(*final(compaction_cursor)) == next_cursor(
            owned_text(*old(compaction_cursor)),
            new_compactions@,
        ),
        final(files)@ == if new_wal.len() == 0 && new_compactions.len() == 0 {
            old(files)@
        } else {
            after_tick(
                old(files)@,
                new_wal@,
                new_compactions@,
                final(wal_cursors)@,
                owned_text(*final(compaction_cursor)),
            )
        },
{
    let ghost start = files@;
    let ghost marks = wal_cursors@;
    let ghost list = manifests(new_wal@);
    if new_wal.len() == 0 && new_compactions.len() == 0 {
        proof {
            assert(list =~= Seq::empty());
        }
        return TickSummary { wal_snapshots: 0, compactions: 0 };
    }
    let mut i: usize = 0;
    proof {
        assert(list.take(0) =~= Seq::empty());
    }
    while i < new_wal.len()
        invariant
            i <= new_wal.len(),
            list == manifests(new_wal@),
            files@ == after_folds(start, list.take(i as int)),
            wal_cursors@ == marks_with(marks, list.take(i as int)),
        decreases new_wal.len() - i,
    {
        proof {
            assert(list.take(i + 1).drop_last() =~= list.take(i as int));
            assert(list.take(i + 1).last() == new_wal@[i as int]@);
        }
        files.add_persisted_snapshot_files(&new_wal[i]);
        wal_cursors.raise(new_wal[i].node_id.as_str(), new_wal[i].snapshot_sequence_number);
        i += 1;
    }
    proof {
        assert(list.take(i as int) =~= list);
    }
    if new_compactions.len() > 0 {
        *compaction_cursor = Some(new_compactions[new_compactions.len() - 1].0.clone());
    }
    let ghost middle = files@;
    let mut j: usize = 0;
    proof {
        assert(new_compactions@.take(0) =~= Seq::empty());
    }
    while j < new_compactions.len()
        invariant
            j <= new_compactions.len(),
            files@ == after_compactions(middle, new_compactions@.take(j as int)),
        decreases new_compactions.len() - j,
    {
        proof {
            assert(new_compactions@.take(j + 1).drop_last() =~= new_compactions@.take(j as int));
        }
        files.add_persisted_compaction_files(
            &new_compactions[j].1,
            new_compactions[j].0.as_str(),
        );
        j += 1;
    }
    proof {
        assert(new_compactions@.take(j as int) =~= new_compactions@);
    }
    let mark: Option<&str> = match &*compaction_cursor {
        Some(id) => Some(id.as_str()),
        None => None,
    };
    files.gc_tombstones(wal_cursors, mark);
    TickSummary { wal_snapshots: new_wal.len(), compactions: new_compactions.len() }
}

/// The tails once the log files that the manifests cover are dropped.
pub open spec fn after_covered<S>(t: Tails<S>, list: Seq<Manifest>) -> Tails<S>
    decreases list.len(),
{
    if list.len() == 0 {
        t
    } else {
        after_persisted(
            after_covered(t, list.drop_last()),
            list.last().node_id,
            list.last().wal_file_sequence_number,
        )
    }
}

/// Drops the log files that the manifests of writers cover. Those of compactions say
/// nothing about the logs.
pub fn evict_covered<S>(tail: &mut WalTailBuffer<S>, new_wal: &Vec<PersistedSnapshot>)
    ensures
        final(tail)@ == after_covered(old(tail)@, manifests(new_wal@)),
        final(tail).writers() == old(tail).writers(),
        final(tail).cap() == old(tail).cap(),
{
    let ghost start = tail@;
    let ghost list = manifests(new_wal@);
    let mut i: usize = 0;
    proof {
        assert(list.take(0) =~= Seq::empty());
    }
    while i < new_wal.len()
        invariant
            i <= new_wal.len(),
            list == manifests(new_wal@),
            tail@ == after_covered(start, list.take(i as int)),
            tail.writers() == old(tail).writers(),
            tail.cap() == old(tail).cap(),
        decreases new_wal.len() - i,
    {
        proof {
            assert(list.take(i + 1).drop_last() =~= list.take(i as int));
            assert(list.take(i + 1).last() == new_wal@[i as int]@);
        }
        tail.evict_up_to(new_wal[i].node_id.as_str(), new_wal[i].wal_file_sequence_number);
        i += 1;
    }
    proof {
        assert(list.take(i as int) =~= list);
    }
}

/// The cursors do not run ahead of the tracked files: after a tick each mark, and the
/// compaction cursor, is the one before it, or that of a manifest that the tick folded. So a
/// checkpoint that is stamped with them covers no manifest that its files leave out.
pub proof fn cursors_follow_the_folds(
    marks: Map<Seq<char>, u64>,
    new_wal: Seq<PersistedSnapshot>,
    cursor: Option<Seq<char>>,
    new_compactions: Seq<(String, PersistedSnapshot)>,
)
    ensures
        forall|n: Seq<char>| #[trigger]
            marks_with(marks, manifests(new_wal)).contains_key(n) ==> (marks.contains_key(n)
                && marks_with(marks, manifests(new_wal))[n] == marks[n]) || exists|i: int|
                0 <= i < new_wal.len() && (#[trigger] new_wal[i]).node_id@ == n
                    && new_wal[i].snapshot_sequence_number == marks_with(
                    marks,
                    manifests(new_wal),
                )[n],
        next_cursor(cursor, new_compactions) == cursor || exists|i: int|
            0 <= i < new_compactions.len() && next_cursor(cursor, new_compactions) == Some(
                (#[trigger] new_compactions[i]).0@,
            ),
{
    let list = manifests(new_wal);
    let after = marks_with(marks, list);
    marks_come_from_what_was_loaded(marks, list);
    assert forall|n: Seq<char>| #[trigger] after.contains_key(n) implies (marks.contains_key(n)
        && after[n] == marks[n]) || exists|i: int|
        0 <= i < new_wal.len() && (#[trigger] new_wal[i]).node_id@ == n
            && new_wal[i].snapshot_sequence_number == after[n] by {
        if !(marks.contains_key(n) && after[n] == marks[n]) {
            let i = choose|i: int|
                0 <= i < list.len() && (#[trigger] list[i]).node_id == n
                    && list[i].snapshot_sequence_number == after[n];
            assert(list[i] == new_wal[i]@);
        }
    }
    if new_compactions.len() > 0 {
        assert(new_compactions[new_compactions.len() - 1].0@ == new_compactions.last().0@);
    }
}

} // verus!

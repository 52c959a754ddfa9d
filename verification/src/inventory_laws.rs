//! What holds of the inventory as a loader finds it.

use vstd::prelude::*;

use crate::files::{manifests, PersistedSnapshot};
use crate::object_path::plain_segment;
use crate::order::{is_stable_sort, reordered_keeps, stable_sort_sorts, SortKey};
use crate::shared_inventory::{
    are_newer_compactions, checkpoint_compaction, checkpoint_marks, compaction_location,
    compaction_manifests, ids, is_entry_path, marks_come_from_what_was_loaded,
    marks_reach_what_was_loaded, newer_id, newer_sequence, newer_wal_entries, owned_text,
    sequences, wal_location, Checkpoint, CompactionEntry, ListedObject, LoadedInventory, WalEntry,
};
use crate::text::{text_lt, text_lt_transitive};
use crate::tombstone::{still_needed, TombstoneKey};
use crate::watermarks::{mark_of, reaches};

verus! {

/// A manifest that a writer has published, and where.
pub struct Published {
    pub node_id: Seq<char>,
    pub sequence: u64,
    pub location: Seq<char>,
}

impl Published {
    /// The mark under the writer's name in the location has reached it.
    pub open spec fn is_reached(self, since: Map<Seq<char>, u64>) -> bool {
        match wal_location(self.location) {
            Some((writer, _)) => reaches(since, writer, self.sequence),
            None => false,
        }
    }
}

/// The object is the one at which this manifest was published.
pub open spec fn is_object_of(object: ListedObject, p: Published) -> bool {
    object.location@ == p.location
}

/// The entry is that of this manifest.
pub open spec fn is_entry_of(entry: WalEntry, p: Published) -> bool {
    entry.location@ == p.location && entry.sequence == p.sequence
}

/// The object is that of a manifest that has been published.
pub open spec fn is_published(published: Seq<Published>, object: ListedObject) -> bool {
    exists|k: int| 0 <= k < published.len() && is_object_of(object, #[trigger] published[k])
}

/// The manifest is in the listing.
pub open spec fn is_listed(listing: Seq<ListedObject>, p: Published) -> bool {
    exists|i: int| 0 <= i < listing.len() && is_object_of(#[trigger] listing[i], p)
}

/// Each manifest was published where its writer and sequence number say, and the listing shows
/// what has been published, and nothing else: one object for each location, however often it
/// was published there.
pub open spec fn shows(listing: Seq<ListedObject>, published: Seq<Published>) -> bool {
    &&& forall|k: int|
        0 <= k < published.len() ==> is_entry_path(
            (#[trigger] published[k]).location,
            published[k].node_id,
            published[k].sequence,
        )
    &&& forall|i: int| 0 <= i < listing.len() ==> #[trigger] is_published(published, listing[i])
    &&& forall|k: int| 0 <= k < published.len() ==> #[trigger] is_listed(listing, published[k])
    &&& forall|i: int, j: int|
        0 <= i < j < listing.len() ==> listing[i].location@ != listing[j].location@
}

/// The entry is that of this object, which is newer.
pub open spec fn is_newer_entry(
    entry: WalEntry,
    object: ListedObject,
    since: Map<Seq<char>, u64>,
) -> bool {
    &&& entry.location == object.location
    &&& newer_sequence(object.location@, since) == Some(entry.sequence)
}

/// The entry is that of a listed object, which is newer.
spec fn is_from(listing: Seq<ListedObject>, entry: WalEntry, since: Map<Seq<char>, u64>) -> bool {
    exists|i: int| 0 <= i < listing.len() && is_newer_entry(entry, #[trigger] listing[i], since)
}

/// The object has its entry.
spec fn has_entry(
    entries: Seq<WalEntry>,
    object: ListedObject,
    since: Map<Seq<char>, u64>,
) -> bool {
    exists|n: int| 0 <= n < entries.len() && is_newer_entry(#[trigger] entries[n], object, since)
}

proof fn newer_entries_are_listed(listing: Seq<ListedObject>, since: Map<Seq<char>, u64>)
    ensures
        forall|n: int|
            0 <= n < newer_wal_entries(listing, since).len() ==> #[trigger] is_from(
                listing,
                newer_wal_entries(listing, since)[n],
                since,
            ),
        forall|i: int|
            0 <= i < listing.len() && newer_sequence(listing[i].location@, since) is Some
                ==> #[trigger] has_entry(newer_wal_entries(listing, since), listing[i], since),
    decreases listing.len(),
{
    if listing.len() > 0 {
        let rest = listing.drop_last();
        let before = newer_wal_entries(rest, since);
        let wanted = newer_wal_entries(listing, since);
        newer_entries_are_listed(rest, since);
        assert forall|n: int| 0 <= n < wanted.len() implies #[trigger] is_from(
            listing,
            wanted[n],
            since,
        ) by {
            if n < before.len() {
                assert(before[n] == wanted[n]);
                assert(is_from(rest, before[n], since));
                let i = choose|i: int|
                    0 <= i < rest.len() && is_newer_entry(before[n], #[trigger] rest[i], since);
                assert(listing[i] == rest[i]);
            } else {
                assert(is_newer_entry(wanted[n], listing[listing.len() - 1], since));
            }
        }
        assert forall|i: int|
            0 <= i < listing.len() && newer_sequence(
                listing[i].location@,
                since,
            ) is Some implies #[trigger] has_entry(wanted, listing[i], since) by {
            if i < rest.len() {
                assert(rest[i] == listing[i]);
                assert(has_entry(before, rest[i], since));
                let n = choose|n: int|
                    0 <= n < before.len() && is_newer_entry(#[trigger] before[n], rest[i], since);
                assert(wanted[n] == before[n]);
            } else {
                assert(is_newer_entry(wanted[wanted.len() - 1], listing[i], since));
            }
        }
    }
}

proof fn newer_entries_are_distinct(listing: Seq<ListedObject>, since: Map<Seq<char>, u64>)
    requires
        forall|i: int, j: int|
            0 <= i < j < listing.len() ==> listing[i].location@ != listing[j].location@,
    ensures
        forall|n: int, m: int|
            0 <= n < m < newer_wal_entries(listing, since).len() ==> newer_wal_entries(
                listing,
                since,
            )[n].location@ != newer_wal_entries(listing, since)[m].location@,
    decreases listing.len(),
{
    if listing.len() > 0 {
        let rest = listing.drop_last();
        let before = newer_wal_entries(rest, since);
        let wanted = newer_wal_entries(listing, since);
        assert forall|i: int, j: int| 0 <= i < j < rest.len() implies rest[i].location@
            != rest[j].location@ by {
            assert(rest[i] == listing[i] && rest[j] == listing[j]);
        }
        newer_entries_are_distinct(rest, since);
        newer_entries_are_listed(rest, since);
        assert forall|n: int, m: int| 0 <= n < m < wanted.len() implies wanted[n].location@
            != wanted[m].location@ by {
            if m == before.len() {
                assert(wanted[n] == before[n]);
                assert(is_from(rest, before[n], since));
                let i = choose|i: int|
                    0 <= i < rest.len() && is_newer_entry(before[n], #[trigger] rest[i], since);
                assert(listing[i].location@ != listing[listing.len() - 1].location@);
            }
        }
    }
}

/// The entry is that of a published manifest that the marks have not reached.
pub open spec fn is_wanted(
    published: Seq<Published>,
    entry: WalEntry,
    since: Map<Seq<char>, u64>,
) -> bool {
    exists|k: int|
        0 <= k < published.len() && is_entry_of(entry, #[trigger] published[k])
            && !published[k].is_reached(since)
}

/// The manifest has its entry.
pub open spec fn is_loaded(entries: Seq<WalEntry>, p: Published) -> bool {
    exists|n: int| 0 <= n < entries.len() && is_entry_of(#[trigger] entries[n], p)
}

proof fn wanted_entry_is_published(
    listing: Seq<ListedObject>,
    published: Seq<Published>,
    since: Map<Seq<char>, u64>,
    entry: WalEntry,
)
    requires
        shows(listing, published),
        is_from(listing, entry, since),
    ensures
        is_wanted(published, entry, since),
{
    let i = choose|i: int|
        0 <= i < listing.len() && is_newer_entry(entry, #[trigger] listing[i], since);
    assert(is_published(published, listing[i]));
    let k = choose|k: int|
        0 <= k < published.len() && is_object_of(listing[i], #[trigger] published[k]);
    assert(is_entry_of(entry, published[k]));
}

proof fn published_has_wanted_entry(
    listing: Seq<ListedObject>,
    published: Seq<Published>,
    since: Map<Seq<char>, u64>,
    k: int,
)
    requires
        shows(listing, published),
        0 <= k < published.len(),
        !published[k].is_reached(since),
    ensures
        is_loaded(newer_wal_entries(listing, since), published[k]),
{
    let wanted = newer_wal_entries(listing, since);
    assert(is_listed(listing, published[k]));
    let i = choose|i: int|
        0 <= i < listing.len() && is_object_of(#[trigger] listing[i], published[k]);
    newer_entries_are_listed(listing, since);
    assert(has_entry(wanted, listing[i], since));
    let n = choose|n: int|
        0 <= n < wanted.len() && is_newer_entry(#[trigger] wanted[n], listing[i], since);
    assert(is_entry_of(wanted[n], published[k]));
}

/// What has been published is what is loaded: exactly the manifests that the marks have not
/// reached, each location once, however often it was published, in ascending order of sequence
/// number. A mark counts by the writer's name in the location, which is the writer's id where
/// paths hold that as it is. Without marks everything is loaded.
pub proof fn published_manifests_are_loaded(
    listing: Seq<ListedObject>,
    published: Seq<Published>,
    since: Map<Seq<char>, u64>,
    r: Seq<WalEntry>,
)
    requires
        shows(listing, published),
        is_stable_sort(
            sequences(newer_wal_entries(listing, since)),
            newer_wal_entries(listing, since),
            r,
        ),
    ensures
        forall|n: int, m: int| 0 <= n < m < r.len() ==> r[n].sequence <= r[m].sequence,
        forall|n: int, m: int| 0 <= n < m < r.len() ==> r[n].location@ != r[m].location@,
        forall|n: int| 0 <= n < r.len() ==> #[trigger] is_wanted(published, r[n], since),
        forall|k: int|
            0 <= k < published.len() && !published[k].is_reached(since) ==> #[trigger] is_loaded(
                r,
                published[k],
            ),
        forall|k: int|
            0 <= k < published.len() && plain_segment(published[k].node_id)
                ==> (#[trigger] published[k]).is_reached(since) == reaches(
                since,
                published[k].node_id,
                published[k].sequence,
            ),
        since == Map::<Seq<char>, u64>::empty() ==> forall|k: int|
            0 <= k < published.len() ==> #[trigger] is_loaded(r, published[k]),
{
    let wanted = newer_wal_entries(listing, since);
    let order = stable_sort_sorts(sequences(wanted), wanted, r);
    newer_entries_are_listed(listing, since);
    newer_entries_are_distinct(listing, since);
    reordered_keeps(wanted, order);
    assert forall|n: int, m: int| 0 <= n < m < r.len() implies r[n].sequence <= r[m].sequence by {
        assert(order[n] < wanted.len() && order[m] < wanted.len());
        assert(!sequences(wanted)[order[m] as int].before(&sequences(wanted)[order[n] as int]));
    }
    assert forall|n: int, m: int| 0 <= n < m < r.len() implies r[n].location@
        != r[m].location@ by {
        assert(order[n] < wanted.len() && order[m] < wanted.len() && order[n] != order[m]);
        if order[n] < order[m] {
            assert(wanted[order[n] as int].location@ != wanted[order[m] as int].location@);
        } else {
            assert(wanted[order[m] as int].location@ != wanted[order[n] as int].location@);
        }
    }
    assert forall|n: int| 0 <= n < r.len() implies #[trigger] is_wanted(
        published,
        r[n],
        since,
    ) by {
        assert(order[n] < wanted.len());
        assert(is_from(listing, wanted[order[n] as int], since));
        wanted_entry_is_published(listing, published, since, r[n]);
    }
    assert forall|k: int|
        0 <= k < published.len() && !published[k].is_reached(since) implies #[trigger] is_loaded(
        r,
        published[k],
    ) by {
        published_has_wanted_entry(listing, published, since, k);
        let w = choose|w: int|
            0 <= w < wanted.len() && is_entry_of(#[trigger] wanted[w], published[k]);
        assert(wanted.contains(wanted[w]));
        assert(r.contains(wanted[w]));
        let n = choose|n: int| 0 <= n < r.len() && r[n] == wanted[w];
        assert(is_entry_of(r[n], published[k]));
    }
}

/// `snapshots` were fetched from the entries at the positions `at`, in order: a manifest that
/// cannot be fetched is passed over. Each was published where its entry is.
pub open spec fn are_fetched(
    snapshots: Seq<PersistedSnapshot>,
    entries: Seq<WalEntry>,
    at: Seq<int>,
) -> bool {
    &&& at.len() == snapshots.len()
    &&& forall|n: int, m: int| 0 <= n < m < at.len() ==> at[n] < at[m]
    &&& forall|n: int|
        0 <= n < at.len() ==> 0 <= (#[trigger] at[n]) < entries.len() && is_entry_path(
            entries[at[n]].location@,
            snapshots[n].node_id@,
            snapshots[n].snapshot_sequence_number,
        )
}

/// `list` was fetched from the entries at the positions `at`, in order, with their ids.
pub open spec fn are_fetched_compactions(
    list: Seq<(String, PersistedSnapshot)>,
    entries: Seq<CompactionEntry>,
    at: Seq<int>,
) -> bool {
    &&& at.len() == list.len()
    &&& forall|n: int, m: int| 0 <= n < m < at.len() ==> at[n] < at[m]
    &&& forall|n: int|
        0 <= n < at.len() ==> 0 <= (#[trigger] at[n]) < entries.len() && list[n].0@
            == entries[at[n]].id@
}

/// The id is newer than that of the checkpoint.
pub open spec fn is_newer_id(id: Seq<char>, since: Option<Seq<char>>) -> bool {
    match since {
        Some(mark) => text_lt(mark, id),
        None => true,
    }
}

proof fn chosen_compactions_are_newer(
    listing: Seq<ListedObject>,
    since: Option<Seq<char>>,
    chosen: Seq<CompactionEntry>,
)
    requires
        are_newer_compactions(listing, since, chosen),
    ensures
        forall|n: int| 0 <= n < chosen.len() ==> is_newer_id((#[trigger] chosen[n]).id@, since),
    decreases listing.len(),
{
    if listing.len() > 0 {
        let rest = listing.drop_last();
        if newer_id(listing.last().location@, since) is Some {
            chosen_compactions_are_newer(rest, since, chosen.drop_last());
            assert forall|n: int| 0 <= n < chosen.len() implies is_newer_id(
                (#[trigger] chosen[n]).id@,
                since,
            ) by {
                if n < chosen.len() - 1 {
                    assert(chosen.drop_last()[n] == chosen[n]);
                }
            }
        } else {
            chosen_compactions_are_newer(rest, since, chosen);
        }
    }
}

proof fn loaded_manifests_are_newer(
    since: Map<Seq<char>, u64>,
    listing: Seq<ListedObject>,
    entries: Seq<WalEntry>,
    at: Seq<int>,
    snapshots: Seq<PersistedSnapshot>,
)
    requires
        is_stable_sort(
            sequences(newer_wal_entries(listing, since)),
            newer_wal_entries(listing, since),
            entries,
        ),
        are_fetched(snapshots, entries, at),
    ensures
        forall|n: int|
            0 <= n < snapshots.len() && plain_segment((#[trigger] snapshots[n]).node_id@)
                ==> !reaches(
                since,
                snapshots[n].node_id@,
                snapshots[n].snapshot_sequence_number,
            ),
        forall|n: int, m: int|
            0 <= n < m < snapshots.len() ==> snapshots[n].snapshot_sequence_number
                <= snapshots[m].snapshot_sequence_number,
{
    let wanted = newer_wal_entries(listing, since);
    let order = stable_sort_sorts(sequences(wanted), wanted, entries);
    newer_entries_are_listed(listing, since);
    assert forall|n: int| 0 <= n < snapshots.len() implies (plain_segment(
        (#[trigger] snapshots[n]).node_id@,
    ) ==> !reaches(since, snapshots[n].node_id@, snapshots[n].snapshot_sequence_number))
        && snapshots[n].snapshot_sequence_number == entries[at[n]].sequence by {
        assert(0 <= at[n] < entries.len());
        let w = order[at[n]] as int;
        assert(order[at[n]] < wanted.len());
        assert(entries[at[n]] == wanted[w]);
        assert(is_from(listing, wanted[w], since));
        let i = choose|i: int|
            0 <= i < listing.len() && is_newer_entry(wanted[w], #[trigger] listing[i], since);
        assert(is_newer_entry(wanted[w], listing[i], since));
    }
    assert forall|n: int, m: int| 0 <= n < m < snapshots.len() implies
        snapshots[n].snapshot_sequence_number <= snapshots[m].snapshot_sequence_number by {
        let a = at[n];
        let b = at[m];
        assert(0 <= a < b < entries.len());
        assert(snapshots[n].snapshot_sequence_number == entries[a].sequence);
        assert(snapshots[m].snapshot_sequence_number == entries[b].sequence);
        assert(order[a] < wanted.len() && order[b] < wanted.len());
        assert(!sequences(wanted)[order[b] as int].before(&sequences(wanted)[order[a] as int]));
    }
}

/// The inventory as it is loaded: the checkpoint; the manifests of writers in ascending order of
/// sequence number, none that the checkpoint's mark has reached where paths hold the writer's id
/// as it is; those of compactions above its compaction, in ascending order of id; for each
/// writer the highest sequence number of the two; the last compaction of the two; and the
/// tombstones of the checkpoint.
pub proof fn loaded_state_is_full(
    checkpoint: Option<Checkpoint>,
    wal_listing: Seq<ListedObject>,
    wal_entries: Seq<WalEntry>,
    wal_at: Seq<int>,
    wal: Seq<PersistedSnapshot>,
    listing: Seq<ListedObject>,
    chosen: Seq<CompactionEntry>,
    entries: Seq<CompactionEntry>,
    at: Seq<int>,
    compactions: Seq<(String, PersistedSnapshot)>,
    st: LoadedInventory,
)
    requires
        is_stable_sort(
            sequences(newer_wal_entries(wal_listing, checkpoint_marks(checkpoint))),
            newer_wal_entries(wal_listing, checkpoint_marks(checkpoint)),
            wal_entries,
        ),
        are_fetched(wal, wal_entries, wal_at),
        are_newer_compactions(listing, checkpoint_compaction(checkpoint), chosen),
        is_stable_sort(ids(chosen), chosen, entries),
        are_fetched_compactions(compactions, entries, at),
        st.is_made_of(checkpoint, wal, compactions),
    ensures
        st.checkpoint == checkpoint,
        st.wal_snapshots@ == wal,
        forall|n: int|
            0 <= n < wal.len() && plain_segment((#[trigger] wal[n]).node_id@) ==> !reaches(
                checkpoint_marks(checkpoint),
                wal[n].node_id@,
                wal[n].snapshot_sequence_number,
            ),
        forall|n: int|
            0 <= n < wal.len() && plain_segment((#[trigger] wal[n]).node_id@)
                && wal[n].snapshot_sequence_number > 0 ==> wal[n].snapshot_sequence_number
                > mark_of(
                checkpoint_marks(checkpoint),
                wal[n].node_id@,
            ),
        forall|n: int, m: int|
            0 <= n < m < wal.len() ==> wal[n].snapshot_sequence_number
                <= wal[m].snapshot_sequence_number,
        manifests(st.compactions@) == compaction_manifests(compactions),
        forall|n: int|
            0 <= n < compactions.len() ==> is_newer_id(
                (#[trigger] compactions[n]).0@,
                checkpoint_compaction(checkpoint),
            ),
        forall|n: int, m: int|
            0 <= n < m < compactions.len() ==> !text_lt(compactions[m].0@, compactions[n].0@),
        forall|w: Seq<char>| #[trigger]
            mark_of(st.wal_watermarks@, w) >= mark_of(checkpoint_marks(checkpoint), w),
        forall|n: int|
            0 <= n < wal.len() ==> mark_of(st.wal_watermarks@, (#[trigger] wal[n]).node_id@)
                >= wal[n].snapshot_sequence_number,
        forall|w: Seq<char>| #[trigger]
            mark_of(st.wal_watermarks@, w) == mark_of(checkpoint_marks(checkpoint), w)
                || exists|n: int|
                0 <= n < wal.len() && (#[trigger] wal[n]).node_id@ == w
                    && wal[n].snapshot_sequence_number == mark_of(st.wal_watermarks@, w),
        owned_text(st.compaction_watermark) == if compactions.len() > 0 {
            Some(compactions.last().0@)
        } else {
            checkpoint_compaction(checkpoint)
        },
        st.tombstones@ == match checkpoint {
            Some(cp) => cp.tombstones@,
            None => Seq::empty(),
        },
        st.compaction_tombstones@ == match checkpoint {
            Some(cp) => cp.compaction_tombstones@,
            None => Seq::empty(),
        },
{
    let since = checkpoint_marks(checkpoint);
    let list = manifests(wal);
    loaded_manifests_are_newer(since, wal_listing, wal_entries, wal_at, wal);
    marks_reach_what_was_loaded(since, list);
    marks_come_from_what_was_loaded(since, list);
    assert forall|n: int| 0 <= n < wal.len() implies mark_of(
        st.wal_watermarks@,
        (#[trigger] wal[n]).node_id@,
    ) >= wal[n].snapshot_sequence_number by {
        assert(list[n] == wal[n]@);
    }
    assert forall|w: Seq<char>|
        mark_of(st.wal_watermarks@, w) != mark_of(since, w) implies exists|n: int|
        0 <= n < wal.len() && (#[trigger] wal[n]).node_id@ == w && wal[n].snapshot_sequence_number
            == #[trigger] mark_of(st.wal_watermarks@, w) by {
        let marks = st.wal_watermarks@;
        if marks.contains_key(w) {
            let i = choose|i: int|
                0 <= i < list.len() && (#[trigger] list[i]).node_id == w
                    && list[i].snapshot_sequence_number == marks[w];
            assert(list[i] == wal[i]@);
        } else {
            assert(mark_of(marks, w) >= mark_of(since, w));
        }
    }
    chosen_compactions_are_newer(listing, checkpoint_compaction(checkpoint), chosen);
    let order = stable_sort_sorts(ids(chosen), chosen, entries);
    assert forall|n: int| 0 <= n < compactions.len() implies is_newer_id(
        (#[trigger] compactions[n]).0@,
        checkpoint_compaction(checkpoint),
    ) by {
        assert(0 <= at[n] < entries.len());
        assert(order[at[n]] < chosen.len());
        assert(entries[at[n]] == chosen[order[at[n]] as int]);
    }
    assert forall|n: int, m: int| 0 <= n < m < compactions.len() implies !text_lt(
        compactions[m].0@,
        compactions[n].0@,
    ) by {
        let a = at[n];
        let b = at[m];
        assert(0 <= a < b < entries.len());
        assert(order[a] < chosen.len() && order[b] < chosen.len());
        assert(!ids(chosen)[order[b] as int].before(&ids(chosen)[order[a] as int]));
        assert(entries[a] == chosen[order[a] as int] && entries[b] == chosen[order[b] as int]);
    }
}

/// A tombstone is dropped only when nothing can add its file again: the marks that drop one of
/// a writer's file have reached every manifest of the writer up to that sequence number, and
/// the mark that drops one of a compacted file has reached every compaction up to the one that
/// removed the file, so that a loader passes all of them over.
pub proof fn dropped_tombstone_is_not_missed(
    key: TombstoneKey,
    marks: Map<Seq<char>, u64>,
    mark: Option<Seq<char>>,
    location: Seq<char>,
)
    requires
        !still_needed(key, marks, mark),
    ensures
        match key {
            TombstoneKey::WalSeq { node_id, wal_seq } => match wal_location(location) {
                Some((writer, sequence)) => writer == node_id && sequence <= wal_seq
                    ==> newer_sequence(location, marks) is None,
                None => newer_sequence(location, marks) is None,
            },
            TombstoneKey::Compaction { removing_id } => match compaction_location(location) {
                Some(id) => id == removing_id || text_lt(id, removing_id) ==> newer_id(
                    location,
                    mark,
                ) is None,
                None => newer_id(location, mark) is None,
            },
            TombstoneKey::ObjectGone => false,
        },
{
    if let TombstoneKey::Compaction { removing_id } = key {
        if let Some(id) = compaction_location(location) {
            let reached = mark->0;
            if text_lt(reached, id) && text_lt(id, removing_id) {
                text_lt_transitive(reached, id, removing_id);
            }
        }
    }
}

} // verus!

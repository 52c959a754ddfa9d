//! The file inventory that nodes share through object storage.
//!
//! ```text
//! _inventory/wal/<node_id>/<reversed sequence>.info.json   manifests of writers
//! _inventory/compactions/<id>.compaction.json              manifests of compactors
//! _inventory/checkpoint/<id>.full.json                     materialized checkpoints
//! _inventory/consumers/<node_id>.json                      how far consumers are
//! ```
//!
//! Writers and compactors publish here; every node loads the inventory when it
//! starts and keeps up by polling. A checkpoint sums up everything before it, so
//! that a loader only folds what is newer.

use vstd::prelude::*;
use vstd::string::*;

use crate::files::{manifests, Manifest, PersistedSnapshot};
use crate::object_path::{
    all_plain, is_segment, keeps_segments, object_path, parts_of, path_parts, plain_char,
    plain_concat, plain_path, plain_path_join, plain_segment, plain_segment_path, stored_path,
};
use crate::order::{
    is_stable_order, is_stable_sort, reordered, reordered_keeps_counts, stable_order,
    stable_sort_sorts, SortKey,
};
use crate::text::{
    ends_with, equal_length_digits_order, padded_text, padded_text_denotes, padded_text_of_u64,
    parse_unsigned, push_padded, read_unsigned, segments, split_on_join, text_before, text_lt,
    text_lt_common_prefix, text_lt_with_suffix, texts, trim_end, trim_end_once, trimmed_end,
};
use crate::tombstone::opt_text;
use crate::watermarks::{mark_of, raised, reaches, NodeMarks};

verus! {

/// Where the inventory is.
pub const SHARED_INVENTORY_PREFIX: &'static str = "_inventory";

/// The path of a writer's manifest. Sequence numbers are counted down, so that a
/// listing in lexicographic order yields the newest first.
pub open spec fn wal_entry_text(node_id: Seq<char>, sequence: u64) -> Seq<char> {
    "_inventory/wal"@ + "/"@ + node_id + "/"@ + (padded_text((u64::MAX - sequence) as nat, 20)
        + ".info.json"@)
}

/// The path of a compactor's manifest.
pub open spec fn compaction_entry_text(id: Seq<char>) -> Seq<char> {
    "_inventory/compactions"@ + "/"@ + (id + ".compaction.json"@)
}

/// The path of a checkpoint.
pub open spec fn checkpoint_entry_text(id: Seq<char>) -> Seq<char> {
    "_inventory/checkpoint"@ + "/"@ + (id + ".full.json"@)
}

/// The path of a consumer's heartbeat.
pub open spec fn consumer_entry_text(node_id: Seq<char>) -> Seq<char> {
    "_inventory/consumers"@ + "/"@ + (node_id + ".json"@)
}

/// The writer and the sequence number that the path of a manifest names.
pub open spec fn wal_location(location: Seq<char>) -> Option<(Seq<char>, u64)> {
    let parts = path_parts(location);
    if parts.len() < 4 {
        None
    } else {
        match parse_unsigned(trim_end(parts[3], ".info.json"@), u64::MAX) {
            Some(reversed) => Some((parts[2], (u64::MAX - reversed) as u64)),
            None => None,
        }
    }
}

/// The location is one at which a writer's manifest is published: it leads back to the sequence
/// number, and to the writer's id where paths hold that as it is.
pub open spec fn is_entry_path(location: Seq<char>, node_id: Seq<char>, sequence: u64) -> bool {
    match wal_location(location) {
        Some((writer, n)) => n == sequence && (plain_segment(node_id) ==> location
            == wal_entry_text(node_id, sequence) && writer == node_id),
        None => false,
    }
}

/// The compaction id that the path of a manifest names.
pub open spec fn compaction_location(location: Seq<char>) -> Option<Seq<char>> {
    let parts = path_parts(location);
    if parts.len() == 0 {
        None
    } else {
        Some(trim_end(parts.last(), ".compaction.json"@))
    }
}

/// Where a writer publishes the manifest with this sequence number.
pub fn wal_entry(node_id: &str, sequence: u64) -> (r: String)
    ensures
        r@ == stored_path(wal_entry_text(node_id@, sequence)),
        is_segment(node_id@) ==> is_entry_path(r@, node_id@, sequence),
        plain_segment(node_id@) ==> r@ == wal_entry_text(node_id@, sequence) && wal_location(r@)
            == Some((node_id@, sequence)),
{
    let mut raw = "_inventory/wal".to_owned();
    raw.append("/");
    raw.append(node_id);
    raw.append("/");
    push_padded(&mut raw, u64::MAX - sequence, 20);
    raw.append(".info.json");
    proof {
        assert(raw@ =~= wal_entry_text(node_id@, sequence));
        if plain_segment(node_id@) {
            wal_entry_reads_back(node_id@, sequence);
        }
        if is_segment(node_id@) {
            wal_entry_segments(node_id@, sequence);
            assert forall|i: int| 0 <= i < segments(raw@).len() implies (#[trigger] segments(
                raw@,
            )[i]).len() > 0 by {}
        }
    }
    let path = object_path(raw.as_str());
    proof {
        if is_segment(node_id@) {
            stored_entry_reads_back(node_id@, sequence, path@);
        }
    }
    path
}

/// Where the manifest of a writer's snapshot is published. It depends on the
/// sequence number alone, so publishing once more is idempotent.
pub fn wal_snapshot_path(node_id: &str, snapshot: &PersistedSnapshot) -> (r: String)
    ensures
        r@ == stored_path(wal_entry_text(node_id@, snapshot.snapshot_sequence_number)),
        is_segment(node_id@) ==> is_entry_path(r@, node_id@, snapshot.snapshot_sequence_number),
        plain_segment(node_id@) ==> wal_location(r@) == Some(
            (node_id@, snapshot.snapshot_sequence_number),
        ),
{
    wal_entry(node_id, snapshot.snapshot_sequence_number)
}

/// Where a compactor publishes a manifest.
pub fn compaction_entry(id: &str) -> (r: String)
    ensures
        r@ == stored_path(compaction_entry_text(id@)),
        plain_segment(id@) ==> r@ == compaction_entry_text(id@),
        plain_segment(id@) && !ends_with(id@, ".compaction.json"@) ==> compaction_location(r@)
            == Some(id@),
{
    let mut raw = "_inventory/compactions".to_owned();
    raw.append("/");
    raw.append(id);
    raw.append(".compaction.json");
    proof {
        assert(raw@ =~= compaction_entry_text(id@));
        if plain_segment(id@) {
            compaction_entry_is_plain(id@);
            if !ends_with(id@, ".compaction.json"@) {
                compaction_entry_reads_back(id@);
            }
        }
    }
    object_path(raw.as_str())
}

/// Where a checkpoint is written.
pub fn checkpoint_entry(id: &str) -> (r: String)
    ensures
        r@ == stored_path(checkpoint_entry_text(id@)),
        plain_segment(id@) ==> r@ == checkpoint_entry_text(id@),
{
    let mut raw = "_inventory/checkpoint".to_owned();
    raw.append("/");
    raw.append(id);
    raw.append(".full.json");
    proof {
        assert(raw@ =~= checkpoint_entry_text(id@));
        if plain_segment(id@) {
            checkpoint_entry_is_plain(id@);
        }
    }
    object_path(raw.as_str())
}

/// Where a consumer's heartbeat is written.
pub fn consumer_entry(node_id: &str) -> (r: String)
    ensures
        r@ == stored_path(consumer_entry_text(node_id@)),
        plain_segment(node_id@) ==> r@ == consumer_entry_text(node_id@),
{
    let mut raw = "_inventory/consumers".to_owned();
    raw.append("/");
    raw.append(node_id);
    raw.append(".json");
    proof {
        assert(raw@ =~= consumer_entry_text(node_id@));
        if plain_segment(node_id@) {
            consumer_entry_is_plain(node_id@);
        }
    }
    object_path(raw.as_str())
}

/// The text of a new id: 36 lower-case hexadecimal digits and hyphens.
pub open spec fn is_id_text(s: Seq<char>) -> bool {
    &&& s.len() == 36
    &&& forall|i: int|
        0 <= i < s.len() ==> ('0' <= #[trigger] s[i] && s[i] <= '9') || ('a' <= s[i] && s[i] <= 'f')
            || s[i] == '-'
}

/// `uuid::Uuid::now_v7`, as text: ids that sort by the time at which they were made.
/// The id itself depends on the clock and on chance, so only its form is stated.
#[verifier::external_body]
pub(crate) fn new_id() -> (r: String)
    ensures
        is_id_text(r@),
{
    uuid::Uuid::now_v7().to_string()
}

/// A new id for a checkpoint, and where it is written.
pub fn new_checkpoint_entry() -> (r: (String, String))
    ensures
        is_id_text(r.0@),
        r.1@ == checkpoint_entry_text(r.0@),
{
    let id = new_id();
    proof {
        id_is_plain(id@);
    }
    let path = checkpoint_entry(id.as_str());
    (id, path)
}

/// A new id for a compaction.
pub fn new_compaction_id() -> (r: String)
    ensures
        is_id_text(r@),
{
    new_id()
}

/// How far a consumer is: the highest compaction that it has folded, and when it said
/// so.
#[derive(Debug, PartialEq, Eq)]
pub struct ConsumerHeartbeat {
    pub node_id: String,
    pub compaction_cursor: Option<String>,
    pub updated_at_ms: i64,
}

/// The view of an optional string.
pub open spec fn owned_text(s: Option<String>) -> Option<Seq<char>> {
    match s {
        Some(t) => Some(t@),
        None => None,
    }
}

/// The difference of two timestamps, held within the range of timestamps.
pub open spec fn elapsed(now: i64, then: i64) -> int {
    if now - then > i64::MAX {
        i64::MAX as int
    } else if now - then < i64::MIN {
        i64::MIN as int
    } else {
        now - then
    }
}

impl ConsumerHeartbeat {
    /// The consumer has not been heard of for longer than `ttl_ms`.
    pub open spec fn is_stale(self, now_ms: i64, ttl_ms: i64) -> bool {
        elapsed(now_ms, self.updated_at_ms) > ttl_ms
    }

    /// The consumer has folded the compaction.
    pub open spec fn has_folded(self, compaction_id: Seq<char>) -> bool {
        match self.compaction_cursor {
            Some(c) => !text_lt(c@, compaction_id),
            None => false,
        }
    }

    /// What a consumer says of itself.
    pub fn new(node_id: &str, compaction_cursor: Option<String>, now_ms: i64) -> (r:
        ConsumerHeartbeat)
        ensures
            r.node_id@ == node_id@,
            r.compaction_cursor == compaction_cursor,
            r.updated_at_ms == now_ms,
    {
        ConsumerHeartbeat { node_id: node_id.to_owned(), compaction_cursor, updated_at_ms: now_ms }
    }

    /// Whether the consumer is alive and has not folded the compaction.
    pub fn blocks(&self, compaction_id: &str, now_ms: i64, ttl_ms: i64) -> (r: bool)
        ensures
            r == (!self.is_stale(now_ms, ttl_ms) && !self.has_folded(compaction_id@)),
    {
        let gap: i128 = now_ms as i128 - self.updated_at_ms as i128;
        let gap: i128 = if gap > i64::MAX as i128 {
            i64::MAX as i128
        } else {
            gap
        };
        if gap > ttl_ms as i128 {
            return false;
        }
        match &self.compaction_cursor {
            Some(c) => text_before(c.as_str(), compaction_id),
            None => true,
        }
    }
}

/// Whether every consumer that is alive has folded the compaction, so that the files
/// that it removed can be deleted. Without live consumers there is nothing to wait
/// for.
pub fn all_live_consumers_folded(
    consumers: &Vec<ConsumerHeartbeat>,
    compaction_id: &str,
    now_ms: i64,
    ttl_ms: i64,
) -> (r: bool)
    ensures
        r <==> forall|i: int|
            0 <= i < consumers.len() && !(#[trigger] consumers@[i]).is_stale(now_ms, ttl_ms)
                ==> consumers@[i].has_folded(compaction_id@),
{
    let mut i: usize = 0;
    while i < consumers.len()
        invariant
            i <= consumers.len(),
            forall|j: int|
                0 <= j < i && !(#[trigger] consumers@[j]).is_stale(now_ms, ttl_ms)
                    ==> consumers@[j].has_folded(compaction_id@),
        decreases consumers.len() - i,
    {
        if consumers[i].blocks(compaction_id, now_ms, ttl_ms) {
            proof {
                assert(!consumers@[i as int].is_stale(now_ms, ttl_ms));
            }
            return false;
        }
        i += 1;
    }
    true
}

/// An object as a listing shows it.
#[derive(Debug, PartialEq, Eq)]
pub struct ListedObject {
    pub location: String,
    pub size: u64,
}

/// A writer's manifest to fetch.
#[derive(Debug, PartialEq, Eq)]
pub struct WalEntry {
    pub sequence: u64,
    pub location: String,
    pub size: u64,
}

/// A compactor's manifest to fetch.
#[derive(Debug, PartialEq, Eq)]
pub struct CompactionEntry {
    pub id: String,
    pub location: String,
    pub size: u64,
}

/// The sequence number of a listed manifest that the mark of its writer has not reached.
/// Without a mark every manifest of a writer is newer.
pub open spec fn newer_sequence(location: Seq<char>, since: Map<Seq<char>, u64>) -> Option<u64> {
    match wal_location(location) {
        Some((node_id, sequence)) => if reaches(since, node_id, sequence) {
            None
        } else {
            Some(sequence)
        },
        None => None,
    }
}

/// The listed manifests that are newer than the mark of their writer, in the order
/// of the listing.
pub open spec fn newer_wal_entries(
    listing: Seq<ListedObject>,
    since: Map<Seq<char>, u64>,
) -> Seq<WalEntry>
    decreases listing.len(),
{
    if listing.len() == 0 {
        Seq::empty()
    } else {
        let before = newer_wal_entries(listing.drop_last(), since);
        let object = listing.last();
        match newer_sequence(object.location@, since) {
            Some(sequence) => before.push(
                WalEntry { sequence, location: object.location, size: object.size },
            ),
            None => before,
        }
    }
}

/// The sequence numbers of the entries.
pub open spec fn sequences(list: Seq<WalEntry>) -> Seq<u64> {
    Seq::new(list.len(), |i: int| list[i].sequence)
}

/// The writer's manifests to fetch: those newer than the mark of their writer, in
/// ascending order of sequence number, so that removals come after the adds that
/// they refer to.
pub fn select_wal_entries(listing: &Vec<ListedObject>, since: &NodeMarks) -> (r: Vec<WalEntry>)
    ensures
        is_stable_sort(
            sequences(newer_wal_entries(listing@, since@)),
            newer_wal_entries(listing@, since@),
            r@,
        ),
{
    let mut chosen: Vec<WalEntry> = Vec::new();
    let mut keys: Vec<u64> = Vec::new();
    let mut i: usize = 0;
    proof {
        assert(listing@.take(0) =~= Seq::empty());
        assert(keys@ =~= sequences(chosen@));
    }
    while i < listing.len()
        invariant
            i <= listing.len(),
            chosen@ == newer_wal_entries(listing@.take(i as int), since@),
            keys@ == sequences(chosen@),
        decreases listing.len() - i,
    {
        proof {
            assert(listing@.take(i + 1).drop_last() =~= listing@.take(i as int));
        }
        if let Some(sequence) = read_newer_sequence(listing[i].location.as_str(), since) {
            chosen.push(
                WalEntry {
                    sequence,
                    location: listing[i].location.clone(),
                    size: listing[i].size,
                },
            );
            keys.push(sequence);
            proof {
                assert(keys@ =~= sequences(chosen@));
            }
        }
        i += 1;
    }
    proof {
        assert(listing@.take(i as int) =~= listing@);
    }
    let order = stable_order(&keys);
    let mut out: Vec<WalEntry> = Vec::new();
    let mut n: usize = 0;
    while n < order.len()
        invariant
            n <= order.len(),
            is_stable_order(keys@, order@),
            keys@.len() == chosen@.len(),
            out.len() == n,
            forall|k: int| 0 <= k < n ==> out@[k] == chosen@[order@[k] as int],
        decreases order.len() - n,
    {
        let e = &chosen[order[n]];
        out.push(
            WalEntry { sequence: e.sequence, location: e.location.clone(), size: e.size },
        );
        n += 1;
    }
    proof {
        assert(out@ =~= reordered(chosen@, order@));
    }
    out
}

fn read_newer_sequence(location: &str, since: &NodeMarks) -> (r: Option<u64>)
    ensures
        r == newer_sequence(location@, since@),
{
    let parts = parts_of(location);
    if parts.len() < 4 {
        return None;
    }
    proof {
        reveal_strlit(".info.json");
        assert(texts(parts@)[2] == parts@[2]@);
        assert(texts(parts@)[3] == parts@[3]@);
    }
    let stem = trimmed_end(parts[3].as_str(), ".info.json");
    match read_unsigned(stem.as_str(), u64::MAX) {
        Some(reversed) => {
            let sequence: u64 = u64::MAX - reversed;
            let newer: bool = match since.get(parts[2].as_str()) {
                Some(mark) => sequence > mark,
                None => true,
            };
            if newer {
                Some(sequence)
            } else {
                None
            }
        },
        None => None,
    }
}

/// The id of a listed manifest that is newer than `since`.
pub open spec fn newer_id(location: Seq<char>, since: Option<Seq<char>>) -> Option<Seq<char>> {
    match compaction_location(location) {
        Some(id) => match since {
            Some(mark) => if text_lt(mark, id) {
                Some(id)
            } else {
                None
            },
            None => Some(id),
        },
        None => None,
    }
}

fn read_newer_id(location: &str, since: Option<&str>) -> (r: Option<String>)
    ensures
        owned_text(r) == newer_id(location@, opt_text(since)),
{
    let parts = parts_of(location);
    if parts.len() == 0 {
        return None;
    }
    let last: usize = parts.len() - 1;
    proof {
        reveal_strlit(".compaction.json");
        assert(texts(parts@).last() == parts@[last as int]@);
    }
    let id = trimmed_end(parts[last].as_str(), ".compaction.json");
    match since {
        Some(mark) => {
            if text_before(mark, id.as_str()) {
                Some(id)
            } else {
                None
            }
        },
        None => Some(id),
    }
}

/// `chosen` holds the listed manifests that are newer than `since`, in the order of the
/// listing.
pub open spec fn are_newer_compactions(
    listing: Seq<ListedObject>,
    since: Option<Seq<char>>,
    chosen: Seq<CompactionEntry>,
) -> bool
    decreases listing.len(),
{
    if listing.len() == 0 {
        chosen.len() == 0
    } else {
        let object = listing.last();
        match newer_id(object.location@, since) {
            Some(id) => {
                &&& chosen.len() > 0
                &&& chosen.last().id@ == id
                &&& chosen.last().location == object.location
                &&& chosen.last().size == object.size
                &&& are_newer_compactions(listing.drop_last(), since, chosen.drop_last())
            },
            None => are_newer_compactions(listing.drop_last(), since, chosen),
        }
    }
}

/// The ids of the entries.
pub open spec fn ids(list: Seq<CompactionEntry>) -> Seq<String> {
    Seq::new(list.len(), |i: int| list[i].id)
}

/// The compactors' manifests to fetch: those newer than `since`, in ascending order of
/// id.
pub fn select_compactions(listing: &Vec<ListedObject>, since: Option<&str>) -> (r: Vec<
    CompactionEntry,
>)
    ensures
        exists|chosen: Seq<CompactionEntry>| #[trigger]
            are_newer_compactions(listing@, opt_text(since), chosen) && is_stable_sort(
                ids(chosen),
                chosen,
                r@,
            ),
{
    let mut chosen: Vec<CompactionEntry> = Vec::new();
    let mut keys: Vec<String> = Vec::new();
    let mut i: usize = 0;
    proof {
        assert(listing@.take(0) =~= Seq::empty());
        assert(keys@ =~= ids(chosen@));
    }
    while i < listing.len()
        invariant
            i <= listing.len(),
            are_newer_compactions(listing@.take(i as int), opt_text(since), chosen@),
            keys@ == ids(chosen@),
        decreases listing.len() - i,
    {
        let ghost before = chosen@;
        proof {
            assert(listing@.take(i + 1).drop_last() =~= listing@.take(i as int));
        }
        if let Some(id) = read_newer_id(listing[i].location.as_str(), since) {
            keys.push(id.clone());
            chosen.push(
                CompactionEntry {
                    id,
                    location: listing[i].location.clone(),
                    size: listing[i].size,
                },
            );
            proof {
                assert(chosen@.drop_last() =~= before);
                assert(keys@ =~= ids(chosen@));
            }
        }
        i += 1;
    }
    proof {
        assert(listing@.take(i as int) =~= listing@);
    }
    let order = stable_order(&keys);
    let mut out: Vec<CompactionEntry> = Vec::new();
    let mut n: usize = 0;
    while n < order.len()
        invariant
            n <= order.len(),
            is_stable_order(keys@, order@),
            keys@.len() == chosen@.len(),
            out.len() == n,
            forall|k: int| 0 <= k < n ==> out@[k] == chosen@[order@[k] as int],
        decreases order.len() - n,
    {
        let e = &chosen[order[n]];
        out.push(
            CompactionEntry { id: e.id.clone(), location: e.location.clone(), size: e.size },
        );
        n += 1;
    }
    proof {
        assert(out@ =~= reordered(chosen@, order@));
    }
    out
}

/// The position of the newest checkpoint in a listing: ids sort by time, so it is the
/// one with the greatest path.
pub fn newest_checkpoint(listing: &Vec<ListedObject>) -> (r: Option<usize>)
    ensures
        r is None <==> listing.len() == 0,
        r is Some ==> r->0 < listing.len() && forall|j: int|
            0 <= j < listing.len() ==> !text_lt(
                listing@[r->0 as int].location@,
                (#[trigger] listing@[j]).location@,
            ),
{
    if listing.len() == 0 {
        return None;
    }
    let mut best: usize = 0;
    let mut i: usize = 1;
    proof {
        if text_lt(listing@[0].location@, listing@[0].location@) {
            crate::text::text_lt_strict(listing@[0].location@, listing@[0].location@);
        }
    }
    while i < listing.len()
        invariant
            best < i <= listing.len(),
            forall|j: int|
                0 <= j < i ==> !text_lt(
                    listing@[best as int].location@,
                    (#[trigger] listing@[j]).location@,
                ),
        decreases listing.len() - i,
    {
        if text_before(listing[best].location.as_str(), listing[i].location.as_str()) {
            proof {
                let old_best = listing@[best as int].location@;
                let new_best = listing@[i as int].location@;
                crate::text::text_lt_strict(old_best, new_best);
                assert forall|j: int| 0 <= j < i + 1 implies !text_lt(
                    new_best,
                    (#[trigger] listing@[j]).location@,
                ) by {
                    let other = listing@[j].location@;
                    if text_lt(new_best, other) {
                        if j < i {
                            crate::text::text_lt_transitive(old_best, new_best, other);
                        } else {
                            crate::text::text_lt_strict(new_best, other);
                        }
                    }
                }
            }
            best = i;
        }
        i += 1;
    }
    Some(best)
}

/// The inventory up to recorded high-water marks.
#[derive(Debug)]
pub struct Checkpoint {
    /// The highest sequence number included, by writer.
    pub wal_high_water: NodeMarks,
    /// The highest compaction included, if any.
    pub compactions_high_water: Option<String>,
    /// Every live file, as one manifest that removes nothing.
    pub merged_snapshot: PersistedSnapshot,
    /// Tombstones of files that writers persisted: path and sequence number.
    pub tombstones: Vec<(String, u64)>,
    /// Tombstones of files that compactors wrote: path and removing compaction.
    pub compaction_tombstones: Vec<(String, String)>,
}

/// The inventory as it was loaded.
#[derive(Debug)]
pub struct LoadedInventory {
    pub checkpoint: Option<Checkpoint>,
    pub wal_snapshots: Vec<PersistedSnapshot>,
    pub compactions: Vec<PersistedSnapshot>,
    /// The highest sequence number seen, by writer: where polling starts.
    pub wal_watermarks: NodeMarks,
    /// The highest compaction seen: where polling starts.
    pub compaction_watermark: Option<String>,
    /// The tombstones of the checkpoint, to be put back before anything newer is
    /// folded.
    pub tombstones: Vec<(String, u64)>,
    pub compaction_tombstones: Vec<(String, String)>,
}

/// The marks once the manifests are taken into account: for each writer the highest
/// sequence number.
pub open spec fn marks_with(start: Map<Seq<char>, u64>, list: Seq<Manifest>) -> Map<Seq<char>, u64>
    decreases list.len(),
{
    if list.len() == 0 {
        start
    } else {
        raised(
            marks_with(start, list.drop_last()),
            list.last().node_id,
            list.last().snapshot_sequence_number,
        )
    }
}

/// The marks that a checkpoint starts a loader with.
pub open spec fn checkpoint_marks(checkpoint: Option<Checkpoint>) -> Map<Seq<char>, u64> {
    match checkpoint {
        Some(cp) => cp.wal_high_water@,
        None => Map::empty(),
    }
}

/// The compaction mark that a checkpoint starts a loader with.
pub open spec fn checkpoint_compaction(checkpoint: Option<Checkpoint>) -> Option<Seq<char>> {
    match checkpoint {
        Some(cp) => owned_text(cp.compactions_high_water),
        None => None,
    }
}

/// The manifests of a list of compactions.
pub open spec fn compaction_manifests(list: Seq<(String, PersistedSnapshot)>) -> Seq<Manifest> {
    Seq::new(list.len(), |i: int| list[i].1@)
}

/// The manifest of a checkpoint, if there is one.
pub open spec fn checkpoint_snapshots(checkpoint: Option<Checkpoint>) -> Seq<PersistedSnapshot> {
    match checkpoint {
        Some(cp) => seq![cp.merged_snapshot],
        None => Seq::empty(),
    }
}

fn copy_gen1(list: &Vec<(String, u64)>) -> (r: Vec<(String, u64)>)
    ensures
        r@ == list@,
{
    let mut out: Vec<(String, u64)> = Vec::new();
    let mut i: usize = 0;
    while i < list.len()
        invariant
            i <= list.len(),
            out@ == list@.take(i as int),
        decreases list.len() - i,
    {
        out.push((list[i].0.clone(), list[i].1));
        i += 1;
        proof {
            assert(out@ =~= list@.take(i as int));
        }
    }
    proof {
        assert(list@.take(i as int) =~= list@);
    }
    out
}

fn copy_compaction(list: &Vec<(String, String)>) -> (r: Vec<(String, String)>)
    ensures
        r@ == list@,
{
    let mut out: Vec<(String, String)> = Vec::new();
    let mut i: usize = 0;
    while i < list.len()
        invariant
            i <= list.len(),
            out@ == list@.take(i as int),
        decreases list.len() - i,
    {
        out.push((list[i].0.clone(), list[i].1.clone()));
        i += 1;
        proof {
            assert(out@ =~= list@.take(i as int));
        }
    }
    proof {
        assert(list@.take(i as int) =~= list@);
    }
    out
}

impl LoadedInventory {
    /// What was loaded is the checkpoint and these manifests of writers and of compactions.
    pub open spec fn is_made_of(
        self,
        checkpoint: Option<Checkpoint>,
        wal_snapshots: Seq<PersistedSnapshot>,
        compactions: Seq<(String, PersistedSnapshot)>,
    ) -> bool {
        &&& self.checkpoint == checkpoint
        &&& self.wal_snapshots@ == wal_snapshots
        &&& manifests(self.compactions@) == compaction_manifests(compactions)
        &&& self.wal_watermarks@ == marks_with(
            checkpoint_marks(checkpoint),
            manifests(wal_snapshots),
        )
        &&& owned_text(self.compaction_watermark) == if compactions.len() > 0 {
            Some(compactions.last().0@)
        } else {
            checkpoint_compaction(checkpoint)
        }
        &&& self.tombstones@ == match checkpoint {
            Some(cp) => cp.tombstones@,
            None => Seq::empty(),
        }
        &&& self.compaction_tombstones@ == match checkpoint {
            Some(cp) => cp.compaction_tombstones@,
            None => Seq::empty(),
        }
    }

    /// Puts together what was loaded: the newest checkpoint, if there is one, and the
    /// manifests that are newer than its marks, in the order in which they are to be
    /// folded.
    pub fn assemble(
        checkpoint: Option<Checkpoint>,
        wal_snapshots: Vec<PersistedSnapshot>,
        compactions: Vec<(String, PersistedSnapshot)>,
    ) -> (r: LoadedInventory)
        ensures
            r.is_made_of(checkpoint, wal_snapshots@, compactions@),
    {
        let mut marks = match &checkpoint {
            Some(cp) => cp.wal_high_water.duplicate(),
            None => NodeMarks::new(),
        };
        let ghost start = marks@;
        let ghost list = manifests(wal_snapshots@);
        let mut i: usize = 0;
        proof {
            assert(list.take(0) =~= Seq::empty());
        }
        while i < wal_snapshots.len()
            invariant
                i <= wal_snapshots.len(),
                list == manifests(wal_snapshots@),
                marks@ == marks_with(start, list.take(i as int)),
            decreases wal_snapshots.len() - i,
        {
            proof {
                assert(list.take(i + 1).drop_last() =~= list.take(i as int));
                assert(list.take(i + 1).last() == wal_snapshots@[i as int]@);
            }
            marks.raise(
                wal_snapshots[i].node_id.as_str(),
                wal_snapshots[i].snapshot_sequence_number,
            );
            i += 1;
        }
        proof {
            assert(list.take(i as int) =~= list);
        }
        let watermark: Option<String> = if compactions.len() > 0 {
            Some(compactions[compactions.len() - 1].0.clone())
        } else {
            match &checkpoint {
                Some(cp) => match &cp.compactions_high_water {
                    Some(id) => Some(id.clone()),
                    None => None,
                },
                None => None,
            }
        };
        let tombstones = match &checkpoint {
            Some(cp) => copy_gen1(&cp.tombstones),
            None => Vec::new(),
        };
        let compaction_tombstones = match &checkpoint {
            Some(cp) => copy_compaction(&cp.compaction_tombstones),
            None => Vec::new(),
        };
        let mut snapshots: Vec<PersistedSnapshot> = Vec::new();
        let mut j: usize = 0;
        proof {
            assert(manifests(snapshots@) =~= compaction_manifests(compactions@.take(0)));
        }
        while j < compactions.len()
            invariant
                j <= compactions.len(),
                manifests(snapshots@) == compaction_manifests(compactions@.take(j as int)),
            decreases compactions.len() - j,
        {
            let ghost before = snapshots@;
            snapshots.push(compactions[j].1.duplicate());
            j += 1;
            proof {
                assert(manifests(snapshots@) =~= manifests(before).push(snapshots@.last()@));
                assert(compaction_manifests(compactions@.take(j as int)) =~= compaction_manifests(
                    compactions@.take(j - 1),
                ).push(compactions@[j - 1].1@));
            }
        }
        proof {
            assert(compactions@.take(j as int) =~= compactions@);
        }
        LoadedInventory {
            checkpoint,
            wal_snapshots,
            compactions: snapshots,
            wal_watermarks: marks,
            compaction_watermark: watermark,
            tombstones,
            compaction_tombstones,
        }
    }

    /// Everything that was loaded as one list, in the order in which it is to be
    /// folded: the checkpoint, the manifests of writers, those of compactors.
    pub fn flatten(self) -> (r: Vec<PersistedSnapshot>)
        ensures
            r@ == checkpoint_snapshots(self.checkpoint) + self.wal_snapshots@ + self.compactions@,
    {
        let mut out: Vec<PersistedSnapshot> = Vec::new();
        let mut wal_snapshots = self.wal_snapshots;
        let mut compactions = self.compactions;
        let ghost wal = wal_snapshots@;
        let ghost compacted = compactions@;
        let ghost head = checkpoint_snapshots(self.checkpoint);
        if let Some(cp) = self.checkpoint {
            out.push(cp.merged_snapshot);
        }
        proof {
            assert(out@ =~= head);
        }
        out.append(&mut wal_snapshots);
        out.append(&mut compactions);
        proof {
            assert(out@ =~= head + wal + compacted);
        }
        out
    }
}

proof fn wal_file_is_plain(sequence: u64)
    ensures
        ({
            let file = padded_text((u64::MAX - sequence) as nat, 20) + ".info.json"@;
            plain_segment(file)
        }),
{
    let stem = padded_text((u64::MAX - sequence) as nat, 20);
    let file = stem + ".info.json"@;
    padded_text_denotes((u64::MAX - sequence) as nat, 20);
    reveal_strlit(".info.json");
    assert(file.len() > 2);
    assert forall|i: int| 0 <= i < file.len() implies plain_char(#[trigger] file[i]) by {
        if i < stem.len() {
            assert(crate::text::is_digit(stem[i]));
        } else {
            assert(file[i] == ".info.json"@[i - stem.len()]);
        }
    }
}

proof fn wal_file_reads_back(sequence: u64)
    ensures
        ({
            let file = padded_text((u64::MAX - sequence) as nat, 20) + ".info.json"@;
            parse_unsigned(trim_end(file, ".info.json"@), u64::MAX) == Some(
                (u64::MAX - sequence) as u64,
            )
        }),
{
    let reversed = (u64::MAX - sequence) as nat;
    let stem = padded_text(reversed, 20);
    reveal_strlit(".info.json");
    padded_text_denotes(reversed, 20);
    assert(!ends_with(stem, ".info.json"@)) by {
        if ends_with(stem, ".info.json"@) {
            let last = stem.skip(stem.len() - ".info.json"@.len());
            assert(last[0] == stem[stem.len() - ".info.json"@.len()]);
            assert(crate::text::is_digit(last[0]));
        }
    }
    trim_end_once(stem, ".info.json"@);
    assert(crate::text::is_digit(stem[0]));
}

proof fn wal_entry_segments(node_id: Seq<char>, sequence: u64)
    requires
        is_segment(node_id),
    ensures
        ({
            let file = padded_text((u64::MAX - sequence) as nat, 20) + ".info.json"@;
            &&& segments(wal_entry_text(node_id, sequence)) == seq![
                "_inventory"@,
                "wal"@,
                node_id,
                file,
            ]
            &&& plain_segment("_inventory"@)
            &&& plain_segment("wal"@)
            &&& plain_segment(file)
        }),
{
    let file = padded_text((u64::MAX - sequence) as nat, 20) + ".info.json"@;
    let a = "_inventory"@;
    let b = "wal"@;
    let ab = "_inventory/wal"@;
    reveal_strlit("_inventory");
    reveal_strlit("wal");
    reveal_strlit("/");
    reveal_strlit("_inventory/wal");
    assert("/"@ =~= seq!['/']);
    assert(ab =~= a + seq!['/'] + b);
    plain_segment_path(a);
    plain_path_join(a, b);
    let abc = ab + seq!['/'] + node_id;
    split_on_join(ab, node_id, '/');
    wal_file_is_plain(sequence);
    plain_segment_path(file);
    assert(!file.contains('/')) by {
        if file.contains('/') {
            let i = choose|i: int| 0 <= i < file.len() && file[i] == '/';
            assert(plain_char(file[i]));
        }
    }
    split_on_join(abc, file, '/');
    let whole = wal_entry_text(node_id, sequence);
    assert(whole =~= abc + seq!['/'] + file);
    assert(segments(whole) =~= seq![a, b, node_id, file]);
}

/// A stored path that keeps the segments of a manifest's path leads back to the sequence
/// number.
proof fn stored_entry_reads_back(node_id: Seq<char>, sequence: u64, stored: Seq<char>)
    requires
        is_segment(node_id),
        keeps_segments(wal_entry_text(node_id, sequence), stored),
        plain_segment(node_id) ==> stored == wal_entry_text(node_id, sequence),
    ensures
        is_entry_path(stored, node_id, sequence),
{
    let raw = wal_entry_text(node_id, sequence);
    wal_entry_segments(node_id, sequence);
    wal_file_reads_back(sequence);
    assert(segments(stored)[3] == segments(raw)[3]);
    assert(path_parts(stored) == segments(stored));
    if plain_segment(node_id) {
        wal_entry_reads_back(node_id, sequence);
    }
}

/// The path under which a writer's manifest is published leads back to the writer
/// and the sequence number.
pub proof fn wal_entry_reads_back(node_id: Seq<char>, sequence: u64)
    requires
        plain_segment(node_id),
    ensures
        plain_path(wal_entry_text(node_id, sequence)),
        wal_location(wal_entry_text(node_id, sequence)) == Some((node_id, sequence)),
{
    let whole = wal_entry_text(node_id, sequence);
    assert(!node_id.contains('/')) by {
        if node_id.contains('/') {
            let i = choose|i: int| 0 <= i < node_id.len() && node_id[i] == '/';
            assert(plain_char(node_id[i]));
        }
    }
    wal_entry_segments(node_id, sequence);
    wal_file_reads_back(sequence);
    assert(path_parts(whole) == segments(whole));
}

/// Of two manifests of a writer the later is listed first.
pub proof fn later_manifest_is_listed_first(node_id: Seq<char>, earlier: u64, later: u64)
    requires
        earlier < later,
    ensures
        text_lt(wal_entry_text(node_id, later), wal_entry_text(node_id, earlier)),
{
    let a = padded_text((u64::MAX - later) as nat, 20);
    let b = padded_text((u64::MAX - earlier) as nat, 20);
    padded_text_denotes((u64::MAX - later) as nat, 20);
    padded_text_denotes((u64::MAX - earlier) as nat, 20);
    padded_text_of_u64((u64::MAX - later) as u64);
    padded_text_of_u64((u64::MAX - earlier) as u64);
    equal_length_digits_order(a, b);
    text_lt_with_suffix(a, b, ".info.json"@);
    let head = "_inventory/wal"@ + "/"@ + node_id + "/"@;
    text_lt_common_prefix(head, a + ".info.json"@, b + ".info.json"@);
}

proof fn compaction_entry_is_plain(id: Seq<char>)
    requires
        plain_segment(id),
    ensures
        plain_path(compaction_entry_text(id)),
        segments(compaction_entry_text(id)).last() == id + ".compaction.json"@,
{
    let a = "_inventory"@;
    let b = "compactions"@;
    let ab = "_inventory/compactions"@;
    let file = id + ".compaction.json"@;
    reveal_strlit("_inventory");
    reveal_strlit("compactions");
    reveal_strlit("/");
    reveal_strlit("_inventory/compactions");
    reveal_strlit(".compaction.json");
    assert("/"@ =~= seq!['/']);
    assert(ab =~= a + seq!['/'] + b);
    plain_segment_path(a);
    plain_path_join(a, b);
    assert forall|i: int| 0 <= i < file.len() implies plain_char(#[trigger] file[i]) by {
        if i < id.len() {
            assert(file[i] == id[i]);
        } else {
            assert(file[i] == ".compaction.json"@[i - id.len()]);
        }
    }
    assert(file.len() > 2);
    plain_path_join(ab, file);
    assert(compaction_entry_text(id) =~= ab + seq!['/'] + file);
}

proof fn checkpoint_entry_is_plain(id: Seq<char>)
    requires
        plain_segment(id),
    ensures
        plain_path(checkpoint_entry_text(id)),
{
    let a = "_inventory"@;
    let b = "checkpoint"@;
    let ab = "_inventory/checkpoint"@;
    let file = id + ".full.json"@;
    reveal_strlit("_inventory");
    reveal_strlit("checkpoint");
    reveal_strlit("/");
    reveal_strlit("_inventory/checkpoint");
    reveal_strlit(".full.json");
    assert("/"@ =~= seq!['/']);
    assert(ab =~= a + seq!['/'] + b);
    plain_segment_path(a);
    plain_path_join(a, b);
    plain_concat(id, ".full.json"@);
    assert(file.len() > 2);
    plain_path_join(ab, file);
    assert(checkpoint_entry_text(id) =~= ab + seq!['/'] + file);
}

proof fn consumer_entry_is_plain(node_id: Seq<char>)
    requires
        plain_segment(node_id),
    ensures
        plain_path(consumer_entry_text(node_id)),
{
    let a = "_inventory"@;
    let b = "consumers"@;
    let ab = "_inventory/consumers"@;
    let file = node_id + ".json"@;
    reveal_strlit("_inventory");
    reveal_strlit("consumers");
    reveal_strlit("/");
    reveal_strlit("_inventory/consumers");
    reveal_strlit(".json");
    assert("/"@ =~= seq!['/']);
    assert(ab =~= a + seq!['/'] + b);
    plain_segment_path(a);
    plain_path_join(a, b);
    plain_concat(node_id, ".json"@);
    assert(file.len() > 2);
    plain_path_join(ab, file);
    assert(consumer_entry_text(node_id) =~= ab + seq!['/'] + file);
}

/// A new id is a plain segment, and not one that looks like the name of a manifest.
pub proof fn id_is_plain(id: Seq<char>)
    requires
        is_id_text(id),
    ensures
        plain_segment(id),
        !ends_with(id, ".compaction.json"@),
{
    assert(all_plain(id)) by {
        assert forall|i: int| 0 <= i < id.len() implies plain_char(#[trigger] id[i]) by {}
    }
    reveal_strlit(".compaction.json");
    if ends_with(id, ".compaction.json"@) {
        let at = id.len() - ".compaction.json"@.len();
        assert(id.skip(at)[0] == id[at]);
        assert(id[at] == '.');
    }
}

/// Of two checkpoints the one with the later id is the newer: its location comes later.
pub proof fn later_checkpoint_is_newer(earlier: Seq<char>, later: Seq<char>)
    requires
        is_id_text(earlier),
        is_id_text(later),
        text_lt(earlier, later),
    ensures
        text_lt(checkpoint_entry_text(earlier), checkpoint_entry_text(later)),
{
    text_lt_with_suffix(earlier, later, ".full.json"@);
    text_lt_common_prefix(
        "_inventory/checkpoint"@ + "/"@,
        earlier + ".full.json"@,
        later + ".full.json"@,
    );
}

/// The path under which a compactor's manifest is published leads back to its id.
pub proof fn compaction_entry_reads_back(id: Seq<char>)
    requires
        plain_segment(id),
        !ends_with(id, ".compaction.json"@),
    ensures
        compaction_location(compaction_entry_text(id)) == Some(id),
{
    compaction_entry_is_plain(id);
    reveal_strlit(".compaction.json");
    trim_end_once(id, ".compaction.json"@);
}

/// A manifest that the mark of its writer has reached is not fetched again.
pub proof fn reached_manifest_is_skipped(
    location: Seq<char>,
    node_id: Seq<char>,
    sequence: u64,
    since: Map<Seq<char>, u64>,
)
    requires
        wal_location(location) == Some((node_id, sequence)),
        reaches(since, node_id, sequence),
    ensures
        newer_sequence(location, since) is None,
{
}

/// The marks that a loader ends with have reached every manifest that it loaded, and
/// none is lower than it started with.
pub proof fn marks_reach_what_was_loaded(start: Map<Seq<char>, u64>, list: Seq<Manifest>)
    ensures
        forall|n: Seq<char>| #[trigger] mark_of(marks_with(start, list), n) >= mark_of(start, n),
        forall|i: int|
            0 <= i < list.len() ==> mark_of(
                marks_with(start, list),
                (#[trigger] list[i]).node_id,
            ) >= list[i].snapshot_sequence_number,
    decreases list.len(),
{
    if list.len() > 0 {
        let rest = list.drop_last();
        marks_reach_what_was_loaded(start, rest);
        assert forall|n: Seq<char>| #[trigger]
            mark_of(marks_with(start, list), n) >= mark_of(start, n) by {
            assert(mark_of(marks_with(start, rest), n) >= mark_of(start, n));
        }
        assert forall|i: int| 0 <= i < list.len() implies mark_of(
            marks_with(start, list),
            (#[trigger] list[i]).node_id,
        ) >= list[i].snapshot_sequence_number by {
            if i < rest.len() {
                assert(rest[i] == list[i]);
            }
        }
    }
}

/// The marks that a loader ends with do not run ahead of what it loaded: each is the one that
/// it started with, or that of a manifest that it loaded.
pub proof fn marks_come_from_what_was_loaded(start: Map<Seq<char>, u64>, list: Seq<Manifest>)
    ensures
        forall|n: Seq<char>| #[trigger]
            marks_with(start, list).contains_key(n) ==> (start.contains_key(n) && marks_with(
                start,
                list,
            )[n] == start[n]) || exists|i: int|
                0 <= i < list.len() && (#[trigger] list[i]).node_id == n
                    && list[i].snapshot_sequence_number == marks_with(start, list)[n],
    decreases list.len(),
{
    if list.len() > 0 {
        let rest = list.drop_last();
        marks_come_from_what_was_loaded(start, rest);
        let before = marks_with(start, rest);
        let after = marks_with(start, list);
        assert forall|n: Seq<char>| #[trigger] after.contains_key(n) implies (start.contains_key(n)
            && after[n] == start[n]) || exists|i: int|
            0 <= i < list.len() && (#[trigger] list[i]).node_id == n
                && list[i].snapshot_sequence_number == after[n] by {
            if n == list.last().node_id && (!before.contains_key(n) || before[n]
                < list.last().snapshot_sequence_number) {
                assert(list[list.len() - 1].node_id == n);
            } else {
                assert(before.contains_key(n));
                if !(start.contains_key(n) && before[n] == start[n]) {
                    let i = choose|i: int|
                        0 <= i < rest.len() && (#[trigger] rest[i]).node_id == n
                            && rest[i].snapshot_sequence_number == before[n];
                    assert(list[i] == rest[i]);
                }
            }
        }
    }
}

/// A loader finds a manifest that was published, unless the mark of its writer has reached
/// it.
pub proof fn published_manifest_is_found(
    node_id: Seq<char>,
    sequence: u64,
    since: Map<Seq<char>, u64>,
)
    requires
        plain_segment(node_id),
    ensures
        newer_sequence(wal_entry_text(node_id, sequence), since) == if reaches(
            since,
            node_id,
            sequence,
        ) {
            None
        } else {
            Some(sequence)
        },
{
    wal_entry_reads_back(node_id, sequence);
}

/// A loader finds the manifest of a compaction that was published, unless the mark has
/// reached it.
pub proof fn published_compaction_is_found(id: Seq<char>, since: Option<Seq<char>>)
    requires
        plain_segment(id),
        !ends_with(id, ".compaction.json"@),
    ensures
        newer_id(compaction_entry_text(id), since) == match since {
            Some(mark) => if text_lt(mark, id) {
                Some(id)
            } else {
                None
            },
            None => Some(id),
        },
{
    compaction_entry_reads_back(id);
}

/// The manifests of writers are fetched in ascending order of sequence number, each of those
/// that are newer as often as it is listed, and no others.
pub proof fn manifests_are_fetched_in_order(
    listing: Seq<ListedObject>,
    since: Map<Seq<char>, u64>,
    r: Seq<WalEntry>,
)
    requires
        is_stable_sort(
            sequences(newer_wal_entries(listing, since)),
            newer_wal_entries(listing, since),
            r,
        ),
    ensures
        forall|i: int, j: int| 0 <= i < j < r.len() ==> r[i].sequence <= r[j].sequence,
        r.to_multiset() == newer_wal_entries(listing, since).to_multiset(),
{
    let wanted = newer_wal_entries(listing, since);
    let order = stable_sort_sorts(sequences(wanted), wanted, r);
    reordered_keeps_counts(wanted, order);
    assert forall|i: int, j: int| 0 <= i < j < r.len() implies r[i].sequence <= r[j].sequence by {
        assert(order[i] < wanted.len() && order[j] < wanted.len());
        assert(!sequences(wanted)[order[j] as int].before(&sequences(wanted)[order[i] as int]));
    }
}

/// The manifests of compactions are fetched in ascending order of id, which is the order in
/// which they were published, each of the chosen as often as it is there, and no others.
pub proof fn compactions_are_fetched_in_order(chosen: Seq<CompactionEntry>, r: Seq<CompactionEntry>)
    requires
        is_stable_sort(ids(chosen), chosen, r),
    ensures
        forall|i: int, j: int| 0 <= i < j < r.len() ==> !text_lt(r[j].id@, r[i].id@),
        r.to_multiset() == chosen.to_multiset(),
{
    let order = stable_sort_sorts(ids(chosen), chosen, r);
    reordered_keeps_counts(chosen, order);
    assert forall|i: int, j: int| 0 <= i < j < r.len() implies !text_lt(r[j].id@, r[i].id@) by {
        assert(order[i] < chosen.len() && order[j] < chosen.len());
        assert(!ids(chosen)[order[j] as int].before(&ids(chosen)[order[i] as int]));
    }
}

/// A consumer that folds further does not fall behind: what it had folded, it still has.
pub proof fn folding_further_keeps_what_was_folded(
    before: ConsumerHeartbeat,
    after: ConsumerHeartbeat,
    compaction_id: Seq<char>,
)
    requires
        before.has_folded(compaction_id),
        after.compaction_cursor is Some,
        !text_lt(after.compaction_cursor->0@, before.compaction_cursor->0@),
    ensures
        after.has_folded(compaction_id),
{
    let a = before.compaction_cursor->0@;
    let b = after.compaction_cursor->0@;
    if text_lt(b, compaction_id) {
        crate::text::text_lt_total(a, b);
        if a != b {
            crate::text::text_lt_transitive(a, b, compaction_id);
        }
    }
}

} // verus!

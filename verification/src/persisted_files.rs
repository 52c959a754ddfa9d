//! The files that have been persisted, by database and table.
//!
//! Queries combine what is still buffered with the files tracked here.

use std::collections::VecDeque;

use vstd::prelude::*;
use vstd::string::*;

use crate::collections::{
    indexed_files, marks_in, paths_in, tombstones_in, FileIndex, FileMap, MarkSet, PathSet,
    TombstoneIndex, TombstoneMap,
};
use crate::files::{
    copy_files, entries, has_path, manifests, path_set, push_table_file, with_file, ChunkFilter,
    DbId, Manifest, ParquetFile, PersistedSnapshot, PersistedSnapshotCheckpoint, TableEntry,
    TableFiles, TableId,
};
use crate::fold::{
    clamped, drop_paths, files_of, fold_joins, fold_leaves, folded, total_bytes, total_rows,
    update_persisted_files_with_snapshot, within, without, FileTotals, LiveFiles,
    SnapshotFoldDelta,
};
use crate::order::{is_stable_order, is_stable_sort, reordered, stable_order, NewestFirst};
use crate::text::{first_segment, path_head, texts};
use crate::tombstone::{opt_text, still_needed, TombstoneGc, TombstoneKey};
use crate::watermarks::NodeMarks;

verus! {

/// Upper bound on the tombstones of files known to be gone from object storage.
/// Nothing else bounds them; beyond it the oldest are dropped.
pub const MAX_EVICTION_TOMBSTONES: usize = 200_000;

/// The state of a [`PersistedFiles`].
pub struct FileState {
    /// The live files of each table.
    pub files: FileMap,
    /// How many files are counted.
    pub count: u64,
    /// How many bytes have been added, and how many removed.
    pub bytes_added: u64,
    pub bytes_removed: u64,
    /// How many rows are counted.
    pub rows: u64,
    /// What is marked for deletion.
    pub marks: Set<(DbId, Option<TableId>)>,
    /// Removed paths that must not come back.
    pub tombstones: TombstoneMap,
    /// The paths known to be gone from object storage, oldest first.
    pub evictions: Seq<Seq<char>>,
}

impl FileState {
    /// The part that a fold works on.
    pub open spec fn live(self) -> LiveFiles {
        LiveFiles { files: self.files, tombstones: self.tombstones }
    }

    /// The table, or its whole database, is marked for deletion.
    pub open spec fn marked(self, key: (DbId, TableId)) -> bool {
        self.marks.contains((key.0, None)) || self.marks.contains((key.0, Some(key.1)))
    }
}

/// Nothing tracked.
pub open spec fn nothing_tracked() -> FileState {
    FileState {
        files: Map::empty(),
        count: 0,
        bytes_added: 0,
        bytes_removed: 0,
        rows: 0,
        marks: Set::empty(),
        tombstones: Map::empty(),
        evictions: Seq::empty(),
    }
}

/// `a` less `b`, or zero where `b` is larger.
pub open spec fn less(a: u64, b: u64) -> u64 {
    if a >= b {
        (a - b) as u64
    } else {
        0
    }
}

/// `a` and `b` together, at most `u64::MAX`.
pub open spec fn plus(a: u64, b: u64) -> u64 {
    clamped(a as nat + b as nat)
}

/// The state once a manifest is folded in.
pub open spec fn after_fold(
    t: FileState,
    manifest: Manifest,
    source: Option<Seq<char>>,
) -> FileState {
    let live = folded(t.live(), manifest, source);
    let joins = fold_joins(t.live(), manifest);
    let leaves = fold_leaves(t.live(), manifest);
    FileState {
        files: live.files,
        tombstones: live.tombstones,
        count: less(plus(t.count, clamped(joins.len())), clamped(leaves.len())),
        rows: less(plus(t.rows, clamped(total_rows(joins))), clamped(total_rows(leaves))),
        bytes_added: plus(t.bytes_added, clamped(total_bytes(joins))),
        bytes_removed: plus(t.bytes_removed, clamped(total_bytes(leaves))),
        ..t
    }
}

/// The state once the manifests are folded in, in order, none of them known to
/// come from a compaction.
pub open spec fn after_folds(t: FileState, list: Seq<Manifest>) -> FileState
    decreases list.len(),
{
    if list.len() == 0 {
        t
    } else {
        after_fold(after_folds(t, list.drop_last()), list.last(), None)
    }
}

/// The files that a checkpoint lists for each table, in order.
pub open spec fn checkpoint_files(list: Seq<TableEntry>) -> FileMap
    decreases list.len(),
{
    if list.len() == 0 {
        Map::empty()
    } else {
        let before = checkpoint_files(list.drop_last());
        let entry = list.last();
        before.insert(entry.key, files_of(before, entry.key) + entry.files)
    }
}

/// How many files a checkpoint lists.
pub open spec fn checkpoint_count(list: Seq<TableEntry>) -> nat
    decreases list.len(),
{
    if list.len() == 0 {
        0
    } else {
        checkpoint_count(list.drop_last()) + list.last().files.len()
    }
}

/// The state that a checkpoint describes.
pub open spec fn from_checkpoint(c: PersistedSnapshotCheckpoint) -> FileState {
    FileState {
        files: checkpoint_files(entries(c.databases@)),
        count: clamped(checkpoint_count(entries(c.databases@))),
        bytes_added: c.parquet_size_bytes,
        rows: c.row_count,
        ..nothing_tracked()
    }
}

/// The state once a single file is added to a table. A file that the table
/// already holds is skipped.
pub open spec fn after_add(t: FileState, key: (DbId, TableId), file: ParquetFile) -> FileState {
    let existing = files_of(t.files, key);
    let known = exists|i: int| 0 <= i < existing.len() && (#[trigger] existing[i]).matches(file);
    if known {
        t
    } else {
        FileState {
            files: t.files.insert(key, existing.push(file)),
            count: plus(t.count, 1),
            bytes_added: plus(t.bytes_added, file.size_bytes),
            rows: plus(t.rows, file.row_count),
            ..t
        }
    }
}

/// The state once the files with these paths are removed from a table.
pub open spec fn after_remove(
    t: FileState,
    key: (DbId, TableId),
    paths: Set<Seq<char>>,
) -> FileState {
    if t.files.contains_key(key) {
        let gone = within(t.files[key], paths);
        FileState {
            files: t.files.insert(key, without(t.files[key], paths)),
            count: less(t.count, clamped(gone.len())),
            bytes_removed: plus(t.bytes_removed, clamped(total_bytes(gone))),
            rows: less(t.rows, clamped(total_rows(gone))),
            ..t
        }
    } else {
        t
    }
}

/// The tombstones that are still needed.
pub open spec fn needed(
    tombstones: TombstoneMap,
    wal_high_water: Map<Seq<char>, u64>,
    compactions_high_water: Option<Seq<char>>,
) -> TombstoneMap {
    Map::new(
        |p: Seq<char>|
            tombstones.contains_key(p) && still_needed(
                tombstones[p],
                wal_high_water,
                compactions_high_water,
            ),
        |p: Seq<char>| tombstones[p],
    )
}

/// `r` is `source` in descending order of earliest time, files with the same
/// earliest time in the order in which they stand.
pub open spec fn is_newest_first(r: Seq<ParquetFile>, source: Seq<ParquetFile>) -> bool {
    is_stable_sort(time_keys(source), source, r)
}

/// The keys by which files are put in descending order of their earliest time.
pub open spec fn time_keys(files: Seq<ParquetFile>) -> Seq<NewestFirst> {
    Seq::new(files.len(), |i: int| NewestFirst(files[i].min_time))
}

/// The files that meet the time range of a query.
pub open spec fn admitted(files: Seq<ParquetFile>, filter: ChunkFilter) -> Seq<ParquetFile> {
    files.filter(|f: ParquetFile| filter.admits(f.min_time, f.max_time))
}

/// The files that are live in object storage and known to this process.
pub struct PersistedFiles {
    files: FileIndex,
    count: u64,
    bytes_added: u64,
    bytes_removed: u64,
    rows: u64,
    marks: MarkSet,
    tombstones: TombstoneIndex,
    evictions: VecDeque<String>,
}

impl View for PersistedFiles {
    type V = FileState;

    closed spec fn view(&self) -> FileState {
        FileState {
            files: indexed_files(self.files),
            count: self.count,
            bytes_added: self.bytes_added,
            bytes_removed: self.bytes_removed,
            rows: self.rows,
            marks: marks_in(self.marks),
            tombstones: tombstones_in(self.tombstones),
            evictions: texts(self.evictions@),
        }
    }
}

impl Default for PersistedFiles {
    fn default() -> (r: PersistedFiles)
        ensures
            r@ == nothing_tracked(),
    {
        PersistedFiles::new()
    }
}

impl PersistedFiles {
    /// Tracks nothing yet.
    pub fn new() -> (r: PersistedFiles)
        ensures
            r@ == nothing_tracked(),
    {
        let r = PersistedFiles {
            files: FileIndex::new(),
            count: 0,
            bytes_added: 0,
            bytes_removed: 0,
            rows: 0,
            marks: MarkSet::new(),
            tombstones: TombstoneIndex::new(),
            evictions: VecDeque::new(),
        };
        proof {
            assert(r@.evictions =~= Seq::empty());
        }
        r
    }

    fn fold(&mut self, snapshot: &PersistedSnapshot, source: Option<&str>)
        ensures
            final(self)@ == after_fold(old(self)@, snapshot@, opt_text(source)),
    {
        let delta: SnapshotFoldDelta = update_persisted_files_with_snapshot(
            snapshot,
            &mut self.files,
            &mut self.tombstones,
            source,
        );
        self.count = self.count.saturating_add(delta.added.count);
        self.count = self.count.saturating_sub(delta.removed.count);
        self.rows = self.rows.saturating_add(delta.added.row_count);
        self.rows = self.rows.saturating_sub(delta.removed.row_count);
        self.bytes_added = self.bytes_added.saturating_add(delta.added.size_bytes);
        self.bytes_removed = self.bytes_removed.saturating_add(delta.removed.size_bytes);
    }

    /// Folds manifests, in order.
    pub(crate) fn fold_all(&mut self, snapshots: &Vec<PersistedSnapshot>)
        ensures
            final(self)@ == after_folds(old(self)@, manifests(snapshots@)),
    {
        let ghost list = manifests(snapshots@);
        let mut i: usize = 0;
        proof {
            assert(list.take(0) =~= Seq::empty());
        }
        while i < snapshots.len()
            invariant
                i <= snapshots.len(),
                list == manifests(snapshots@),
                self@ == after_folds(old(self)@, list.take(i as int)),
            decreases snapshots.len() - i,
        {
            proof {
                assert(list.take(i + 1).drop_last() =~= list.take(i as int));
                assert(list.take(i + 1).last() == snapshots@[i as int]@);
            }
            self.fold(&snapshots[i], None);
            i += 1;
        }
        proof {
            assert(list.take(i as int) =~= list);
        }
    }

    /// Tracks the files that a list of manifests leaves live, folded in the given
    /// order.
    pub fn new_from_persisted_snapshots(snapshots: &Vec<PersistedSnapshot>) -> (r: PersistedFiles)
        ensures
            r@ == after_folds(nothing_tracked(), manifests(snapshots@)),
    {
        let mut r = PersistedFiles::new();
        r.fold_all(snapshots);
        r
    }

    /// Tracks the files that a checkpoint lists.
    fn from_merged(checkpoint: PersistedSnapshotCheckpoint) -> (r: PersistedFiles)
        ensures
            r@ == from_checkpoint(checkpoint),
    {
        let mut r = PersistedFiles::new();
        let ghost list = entries(checkpoint.databases@);
        let mut i: usize = 0;
        proof {
            assert(list.take(0) =~= Seq::empty());
        }
        while i < checkpoint.databases.len()
            invariant
                i <= checkpoint.databases.len(),
                list == entries(checkpoint.databases@),
                r@ == (FileState {
                    files: checkpoint_files(list.take(i as int)),
                    count: clamped(checkpoint_count(list.take(i as int))),
                    ..nothing_tracked()
                }),
            decreases checkpoint.databases.len() - i,
        {
            let table = &checkpoint.databases[i];
            let ghost before = indexed_files(r.files);
            proof {
                assert(list.take(i + 1).drop_last() =~= list.take(i as int));
                assert(list.take(i + 1).last() == table@);
            }
            let key = (table.db_id, table.table_id);
            let mut files: Vec<ParquetFile> = match r.files.remove(key) {
                Some(files) => files,
                None => Vec::new(),
            };
            let mut more = copy_files(&table.files);
            r.count = r.count.saturating_add(more.len() as u64);
            files.append(&mut more);
            r.files.insert(key, files);
            proof {
                assert(indexed_files(r.files) =~= before.insert(key, files@));
            }
            i += 1;
        }
        r.bytes_added = checkpoint.parquet_size_bytes;
        r.rows = checkpoint.row_count;
        proof {
            assert(list.take(i as int) =~= list);
        }
        r
    }

    /// Folds a manifest.
    pub fn add_persisted_snapshot_files(&mut self, snapshot: &PersistedSnapshot)
        ensures
            final(self)@ == after_fold(old(self)@, snapshot@, None),
    {
        self.fold(snapshot, None);
    }

    /// Folds the manifest of a compaction. A tombstone that it leaves names the
    /// compaction, so that it can be dropped once the compaction high-water mark
    /// reaches it.
    pub fn add_persisted_compaction_files(
        &mut self,
        snapshot: &PersistedSnapshot,
        compaction_id: &str,
    )
        ensures
            final(self)@ == after_fold(old(self)@, snapshot@, Some(compaction_id@)),
    {
        self.fold(snapshot, Some(compaction_id));
    }

    /// Adds one file to a table, unless the table already holds it.
    pub fn add_persisted_file(&mut self, db_id: DbId, table_id: TableId, file: &ParquetFile)
        ensures
            final(self)@ == after_add(old(self)@, (db_id, table_id), *file),
    {
        let key = (db_id, table_id);
        let ghost before = indexed_files(self.files);
        let mut files: Vec<ParquetFile> = match self.files.remove(key) {
            Some(files) => files,
            None => Vec::new(),
        };
        let ghost existing = files@;
        let mut known = false;
        let mut i: usize = 0;
        while i < files.len()
            invariant
                i <= files.len(),
                existing == files@,
                known == exists|j: int| 0 <= j < i && (#[trigger] existing[j]).matches(*file),
            decreases files.len() - i,
        {
            if files[i].same_as(file) {
                known = true;
                assert(existing[i as int].matches(*file));
            }
            i += 1;
        }
        if !known {
            self.count = self.count.saturating_add(1);
            self.rows = self.rows.saturating_add(file.row_count);
            self.bytes_added = self.bytes_added.saturating_add(file.size_bytes);
            files.push(file.duplicate());
        }
        self.files.insert(key, files);
        proof {
            assert(indexed_files(self.files) =~= before.insert(key, files@));
            if known {
                assert(indexed_files(self.files) =~= before);
            }
        }
    }

    /// Removes files from a table by path. Only those that were there are taken
    /// off the counters, so the list may hold more.
    pub fn remove_persisted_files(
        &mut self,
        db_id: DbId,
        table_id: TableId,
        files_to_remove: &Vec<ParquetFile>,
    )
        ensures
            final(self)@ == after_remove(
                old(self)@,
                (db_id, table_id),
                path_set(files_to_remove@),
            ),
    {
        let key = (db_id, table_id);
        let ghost before = indexed_files(self.files);
        match self.files.remove(key) {
            Some(files) => {
                let mut paths = PathSet::new();
                let mut i: usize = 0;
                while i < files_to_remove.len()
                    invariant
                        i <= files_to_remove.len(),
                        forall|p: Seq<char>| #[trigger]
                            paths_in(paths).contains(p) <==> has_path(
                                files_to_remove@.take(i as int),
                                p,
                            ),
                    decreases files_to_remove.len() - i,
                {
                    let ghost part = files_to_remove@.take(i as int);
                    let ghost next = files_to_remove@.take(i + 1);
                    paths.insert(files_to_remove[i].path.clone());
                    proof {
                        let f = files_to_remove@[i as int];
                        assert forall|p: Seq<char>| has_path(next, p) == (has_path(part, p) || p
                            == f.path@) by {
                            if has_path(part, p) {
                                let k = choose|k: int|
                                    0 <= k < part.len() && (#[trigger] part[k]).path@ == p;
                                assert(next[k].path@ == p);
                            }
                            if p == f.path@ {
                                assert(next[i as int].path@ == p);
                            }
                            if has_path(next, p) {
                                let k = choose|k: int|
                                    0 <= k < next.len() && (#[trigger] next[k]).path@ == p;
                                if k < i {
                                    assert(part[k].path@ == p);
                                }
                            }
                        }
                    }
                    i += 1;
                }
                proof {
                    assert(files_to_remove@.take(i as int) =~= files_to_remove@);
                    assert(paths_in(paths) =~= path_set(files_to_remove@));
                }
                let mut totals = FileTotals::none();
                let kept = drop_paths(&files, &paths, &mut totals, Ghost(Seq::empty()));
                proof {
                    let gone = within(files@, paths_in(paths));
                    assert(Seq::<ParquetFile>::empty() + gone =~= gone);
                }
                self.bytes_removed = self.bytes_removed.saturating_add(totals.size_bytes);
                self.rows = self.rows.saturating_sub(totals.row_count);
                self.count = self.count.saturating_sub(totals.count);
                self.files.insert(key, kept);
                proof {
                    assert(indexed_files(self.files) =~= before.insert(key, kept@));
                }
            },
            None => {
                proof {
                    assert(indexed_files(self.files) =~= before);
                }
            },
        }
    }

    /// The live files of every table that has any.
    pub fn snapshot_all(&self) -> (r: Vec<TableFiles>)
        ensures
            lists_all(entries(r@), self@.files),
    {
        let keys = self.files.keys();
        let mut out: Vec<TableFiles> = Vec::new();
        let mut i: usize = 0;
        proof {
            assert(entries(out@) =~= Seq::empty());
        }
        while i < keys.len()
            invariant
                i <= keys.len(),
                keys@.no_duplicates(),
                forall|k: (DbId, TableId)|
                    keys@.contains(k) <==> indexed_files(self.files).contains_key(k),
                forall|n: int| #![trigger entries(out@)[n]]
                    0 <= n < out.len() ==> lists_table(entries(out@)[n], self@.files)
                        && keys@.take(i as int).contains(entries(out@)[n].key),
                forall|n: int, m: int|
                    0 <= n < m < out.len() ==> entries(out@)[n].key != entries(out@)[m].key,
                forall|k: (DbId, TableId)|
                    keys@.take(i as int).contains(k) && indexed_files(self.files)[k].len() > 0
                        ==> #[trigger] has_entry(entries(out@), k),
            decreases keys.len() - i,
        {
            let key = keys[i];
            let ghost before = entries(out@);
            let ghost done = keys@.take(i as int);
            proof {
                assert(keys@.take(i + 1) =~= done.push(key));
                assert(keys@.contains(keys@[i as int]));
                assert(done.push(key)[i as int] == key);
            }
            if let Some(files) = self.files.get(key) {
                if files.len() > 0 {
                    out.push(
                        TableFiles { db_id: key.0, table_id: key.1, files: copy_files(files) },
                    );
                    proof {
                        assert(entries(out@) =~= before.push(out@.last()@));
                        assert forall|n: int| 0 <= n < before.len() implies before[n].key != key by {
                            assert(done.contains(before[n].key));
                            let a = choose|a: int| 0 <= a < done.len() && done[a] == before[n].key;
                            assert(keys@[a] == done[a]);
                        }
                    }
                }
            }
            proof {
                assert forall|k: (DbId, TableId)|
                    keys@.take(i + 1).contains(k) && indexed_files(self.files)[k].len()
                        > 0 implies #[trigger] has_entry(entries(out@), k) by {
                    if k == key {
                        assert(entries(out@)[before.len() as int].key == k);
                    } else {
                        let a = choose|a: int|
                            0 <= a < done.push(key).len() && done.push(key)[a] == k;
                        assert(done[a] == k);
                        assert(has_entry(before, k));
                        let b = choose|b: int| 0 <= b < before.len() && (#[trigger] before[b]).key == k;
                        assert(entries(out@)[b].key == k);
                    }
                }
                assert forall|n: int| #![trigger entries(out@)[n]]
                    0 <= n < out.len() implies lists_table(entries(out@)[n], self@.files)
                    && keys@.take(i + 1).contains(entries(out@)[n].key) by {
                    if n < before.len() {
                        assert(entries(out@)[n] == before[n]);
                        let a = choose|a: int| 0 <= a < done.len() && done[a] == before[n].key;
                        assert(done.push(key)[a] == before[n].key);
                    }
                }
            }
            i += 1;
        }
        proof {
            assert(keys@.take(i as int) =~= keys@);
        }
        out
    }

    /// Drops the tombstones that the high-water marks have passed.
    pub fn gc_tombstones(
        &mut self,
        wal_high_water: &NodeMarks,
        compactions_high_water: Option<&str>,
    )
        ensures
            final(self)@ == (FileState {
                tombstones: needed(
                    old(self)@.tombstones,
                    wal_high_water@,
                    opt_text(compactions_high_water),
                ),
                ..old(self)@
            }),
    {
        self.tombstones.retain_needed(wal_high_water, compactions_high_water);
    }

    /// How many removed paths are remembered.
    pub fn tombstone_count(&self) -> (r: usize)
        ensures
            r == self@.tombstones.len(),
    {
        self.tombstones.len()
    }

    /// The counters: files, bytes added less bytes removed, rows.
    pub fn get_metrics(&self) -> (r: (u64, i128, u64))
        ensures
            r.0 == self@.count,
            r.1 == self@.bytes_added - self@.bytes_removed,
            r.2 == self@.rows,
    {
        (self.count, self.bytes_added as i128 - self.bytes_removed as i128, self.rows)
    }

    /// Marks every table of a database for deletion.
    pub fn delete_database(&mut self, db_id: DbId)
        ensures
            final(self)@ == (FileState { marks: old(self)@.marks.insert((db_id, None)), ..old(self)@ }),
    {
        self.marks.insert((db_id, None));
    }

    /// Marks a table for deletion, unless its whole database is.
    pub fn delete_table(&mut self, db_id: DbId, table_id: TableId)
        ensures
            final(self)@ == if old(self)@.marks.contains((db_id, None)) {
                old(self)@
            } else {
                FileState { marks: old(self)@.marks.insert((db_id, Some(table_id))), ..old(self)@ }
            },
    {
        if !self.marks.contains((db_id, None)) {
            self.marks.insert((db_id, Some(table_id)));
        }
    }
}

/// A file of a table, queued for removal.
pub struct Queued {
    pub key: (DbId, TableId),
    pub file: ParquetFile,
}

/// The cutoff of a table's retention period: files that hold nothing as recent
/// are in violation of it.
#[derive(Debug, Clone, Copy, PartialEq, Eq, Structural)]
pub struct RetentionCutoff {
    pub db_id: DbId,
    pub table_id: TableId,
    pub cutoff: i64,
}

/// The file is older than a cutoff of its table.
pub open spec fn is_expired(
    cutoffs: Seq<RetentionCutoff>,
    key: (DbId, TableId),
    file: ParquetFile,
) -> bool {
    exists|i: int|
        0 <= i < cutoffs.len() && (#[trigger] cutoffs[i]).db_id == key.0 && cutoffs[i].table_id
            == key.1 && file.max_time < cutoffs[i].cutoff
}

/// The file must go: its table is marked for deletion, or it is older than the
/// retention period allows.
pub open spec fn is_condemned(
    t: FileState,
    cutoffs: Seq<RetentionCutoff>,
    key: (DbId, TableId),
    file: ParquetFile,
) -> bool {
    t.marked(key) || is_expired(cutoffs, key, file)
}

/// The table holds the file at some position.
pub open spec fn holds(t: FileState, key: (DbId, TableId), i: int) -> bool {
    t.files.contains_key(key) && 0 <= i < t.files[key].len()
}

/// The paths of the files that must go.
pub open spec fn condemned_paths(t: FileState, cutoffs: Seq<RetentionCutoff>) -> Set<Seq<char>> {
    Set::new(
        |p: Seq<char>|
            exists|key: (DbId, TableId), i: int| #[trigger]
                holds(t, key, i) && t.files[key][i].path@ == p && is_condemned(
                    t,
                    cutoffs,
                    key,
                    t.files[key][i],
                ),
    )
}

/// The queue holds a file with this path.
pub open spec fn is_queued(queue: Seq<Queued>, path: Seq<char>) -> bool {
    exists|i: int| 0 <= i < queue.len() && (#[trigger] queue[i]).file.path@ == path
}

/// The files of the queue.
pub open spec fn queued_files(queue: Seq<Queued>) -> Seq<ParquetFile> {
    Seq::new(queue.len(), |i: int| queue[i].file)
}

/// The queue by table.
pub open spec fn grouped(queue: Seq<Queued>) -> Seq<TableEntry>
    decreases queue.len(),
{
    if queue.len() == 0 {
        Seq::empty()
    } else {
        with_file(grouped(queue.drop_last()), queue.last().key, queue.last().file)
    }
}

/// The queue is made of files that must go, no path twice, and a path that a
/// table marked for deletion holds is queued under such a table.
pub open spec fn is_sound_queue(
    t: FileState,
    cutoffs: Seq<RetentionCutoff>,
    queue: Seq<Queued>,
) -> bool {
    &&& forall|n: int| #![trigger queue[n]]
        0 <= n < queue.len() ==> t.files.contains_key(queue[n].key)
            && t.files[queue[n].key].contains(queue[n].file) && is_condemned(
            t,
            cutoffs,
            queue[n].key,
            queue[n].file,
        )
    &&& forall|n: int, m: int|
        0 <= n < m < queue.len() ==> queue[n].file.path@ != queue[m].file.path@
    &&& forall|n: int, key: (DbId, TableId), i: int|
        #![trigger queue[n], holds(t, key, i)]
        0 <= n < queue.len() && !t.marked(queue[n].key) && holds(t, key, i) && t.marked(key)
            ==> t.files[key][i].path@ != queue[n].file.path@
}

/// The queue is sound, and every path that must go is in it.
pub open spec fn is_deletion_queue(
    t: FileState,
    cutoffs: Seq<RetentionCutoff>,
    queue: Seq<Queued>,
) -> bool {
    &&& is_sound_queue(t, cutoffs, queue)
    &&& forall|p: Seq<char>| condemned_paths(t, cutoffs).contains(p) ==> is_queued(queue, p)
}

/// Every table without the files with these paths.
pub open spec fn all_without(files: FileMap, paths: Set<Seq<char>>) -> FileMap {
    Map::new(
        |k: (DbId, TableId)| files.contains_key(k),
        |k: (DbId, TableId)| without(files[k], paths),
    )
}

/// The state once the queued files are removed from every table that holds a
/// file with their path. Where nothing is queued, nothing changes.
pub open spec fn after_deletion(
    t: FileState,
    cutoffs: Seq<RetentionCutoff>,
    queue: Seq<Queued>,
) -> FileState {
    if queue.len() == 0 {
        t
    } else {
        let gone = queued_files(queue);
        FileState {
            files: all_without(t.files, condemned_paths(t, cutoffs)),
            count: less(t.count, clamped(gone.len())),
            bytes_removed: plus(t.bytes_removed, clamped(total_bytes(gone))),
            rows: less(t.rows, clamped(total_rows(gone))),
            marks: Set::empty(),
            ..t
        }
    }
}

/// The removal in the making: what is queued, by table, with its paths and totals.
struct Removal {
    tables: Vec<TableFiles>,
    paths: PathSet,
    totals: FileTotals,
    queue: Ghost<Seq<Queued>>,
}

impl Removal {
    spec fn wf(self) -> bool {
        &&& entries(self.tables@) == grouped(self.queue@)
        &&& forall|p: Seq<char>| #[trigger]
            paths_in(self.paths).contains(p) <==> is_queued(self.queue@, p)
        &&& self.totals.of(queued_files(self.queue@))
        &&& (self.tables.len() == 0 <==> self.queue@.len() == 0)
    }

    fn new() -> (r: Removal)
        ensures
            r.wf(),
            r.queue@ == Seq::<Queued>::empty(),
    {
        let r = Removal {
            tables: Vec::new(),
            paths: PathSet::new(),
            totals: FileTotals::none(),
            queue: Ghost(Seq::empty()),
        };
        proof {
            assert(entries(r.tables@) =~= grouped(r.queue@));
            assert(queued_files(r.queue@) =~= Seq::empty());
        }
        r
    }

    /// Queues a file, unless one with its path is queued already.
    fn queue(&mut self, key: (DbId, TableId), file: &ParquetFile)
        requires
            old(self).wf(),
        ensures
            final(self).wf(),
            final(self).queue@ == if is_queued(old(self).queue@, file.path@) {
                old(self).queue@
            } else {
                old(self).queue@.push(Queued { key, file: *file })
            },
    {
        if self.paths.contains(file.path.as_str()) {
            return;
        }
        let ghost before = self.queue@;
        let ghost after = before.push(Queued { key, file: *file });
        self.totals.count_file(file, Ghost(queued_files(before)));
        push_table_file(&mut self.tables, key.0, key.1, file.duplicate());
        self.paths.insert(file.path.clone());
        self.queue = Ghost(after);
        proof {
            assert(after.drop_last() =~= before);
            assert(queued_files(after) =~= queued_files(before).push(*file));
            assert forall|p: Seq<char>| is_queued(after, p) == (is_queued(before, p) || p
                == file.path@) by {
                if is_queued(before, p) {
                    let i = choose|i: int| 0 <= i < before.len() && (#[trigger] before[i]).file.path@ == p;
                    assert(after[i].file.path@ == p);
                }
                if p == file.path@ {
                    assert(after[before.len() as int].file.path@ == p);
                }
                if is_queued(after, p) {
                    let i = choose|i: int| 0 <= i < after.len() && (#[trigger] after[i]).file.path@ == p;
                    if i < before.len() {
                        assert(before[i].file.path@ == p);
                    }
                }
            }
            with_file_len(grouped(before), key, *file);
            assert(entries(self.tables@).len() == self.tables.len());
        }
    }
}

proof fn with_file_len(list: Seq<TableEntry>, key: (DbId, TableId), file: ParquetFile)
    ensures
        with_file(list, key, file).len() >= 1,
        with_file(list, key, file).len() >= list.len(),
    decreases list.len(),
{
    if list.len() > 0 && list[0].key != key {
        with_file_len(list.skip(1), key, file);
    }
}

/// A longer queue keeps what a shorter one held.
proof fn queued_stays(queue: Seq<Queued>, item: Queued, path: Seq<char>)
    requires
        is_queued(queue, path),
    ensures
        is_queued(queue.push(item), path),
{
    let i = choose|i: int| 0 <= i < queue.len() && (#[trigger] queue[i]).file.path@ == path;
    assert(queue.push(item)[i].file.path@ == path);
}

impl PersistedFiles {
    /// Queues the files of one table: all of them, or those older than a cutoff.
    fn queue_table(
        &self,
        removal: &mut Removal,
        key: (DbId, TableId),
        cutoff: Option<i64>,
        Ghost(cutoffs): Ghost<Seq<RetentionCutoff>>,
    )
        requires
            old(removal).wf(),
            is_sound_queue(self@, cutoffs, old(removal).queue@),
            cutoff is None ==> self@.marked(key),
            cutoff is Some ==> !self@.marked(key) && (forall|f: ParquetFile|
                f.max_time < cutoff->0 ==> #[trigger] is_expired(cutoffs, key, f)) && (forall|
                k: (DbId, TableId),
                i: int,
            |
                #[trigger] holds(self@, k, i) && self@.marked(k) ==> is_queued(
                    old(removal).queue@,
                    self@.files[k][i].path@,
                )),
        ensures
            final(removal).wf(),
            is_sound_queue(self@, cutoffs, final(removal).queue@),
            forall|p: Seq<char>| #[trigger]
                is_queued(old(removal).queue@, p) ==> is_queued(final(removal).queue@, p),
            forall|i: int|
                #[trigger] holds(self@, key, i) && (cutoff is Some ==> self@.files[key][i].max_time
                    < cutoff->0) ==> is_queued(
                    final(removal).queue@,
                    self@.files[key][i].path@,
                ),
    {
        if let Some(files) = self.files.get(key) {
            let mut i: usize = 0;
            while i < files.len()
                invariant
                    i <= files.len(),
                    self@.files.contains_key(key),
                    files@ == self@.files[key],
                    removal.wf(),
                    is_sound_queue(self@, cutoffs, removal.queue@),
                    cutoff is None ==> self@.marked(key),
                    cutoff is Some ==> !self@.marked(key) && (forall|f: ParquetFile|
                        f.max_time < cutoff->0 ==> #[trigger] is_expired(cutoffs, key, f)) && (
                    forall|k: (DbId, TableId), n: int|
                        #[trigger] holds(self@, k, n) && self@.marked(k) ==> is_queued(
                            removal.queue@,
                            self@.files[k][n].path@,
                        )),
                    forall|p: Seq<char>| #[trigger]
                        is_queued(old(removal).queue@, p) ==> is_queued(removal.queue@, p),
                    forall|n: int|
                        #[trigger] holds(self@, key, n) && n < i && (cutoff is Some
                            ==> self@.files[key][n].max_time < cutoff->0) ==> is_queued(
                            removal.queue@,
                            self@.files[key][n].path@,
                        ),
                decreases files.len() - i,
            {
                let file = &files[i];
                let due: bool = match cutoff {
                    Some(c) => file.max_time < c,
                    None => true,
                };
                if due {
                    let ghost before = removal.queue@;
                    let ghost item = Queued { key, file: *file };
                    removal.queue(key, file);
                    proof {
                        assert(files@[i as int] == *file);
                        assert(self@.files[key].contains(*file));
                        assert(is_condemned(self@, cutoffs, key, *file));
                        assert forall|p: Seq<char>| #[trigger] is_queued(before, p) implies is_queued(
                            removal.queue@,
                            p,
                        ) by {
                            if !is_queued(before, file.path@) {
                                queued_stays(before, item, p);
                            }
                        }
                        if !is_queued(before, file.path@) {
                            let after = removal.queue@;
                            assert(after[before.len() as int].file.path@ == file.path@);
                            assert forall|n: int, m: int| 0 <= n < m < after.len() implies
                                after[n].file.path@ != after[m].file.path@ by {
                                if m == before.len() {
                                    assert(before[n].file.path@ != file.path@);
                                }
                            }
                        }
                        assert(is_queued(removal.queue@, file.path@));
                    }
                }
                i += 1;
            }
        }
    }

    /// Queues every file that must go.
    fn queue_condemned(&self, keys: &Vec<(DbId, TableId)>, cutoffs: &Vec<RetentionCutoff>) -> (r:
        Removal)
        requires
            forall|k: (DbId, TableId)|
                keys@.contains(k) <==> indexed_files(self.files).contains_key(k),
        ensures
            r.wf(),
            is_deletion_queue(self@, cutoffs@, r.queue@),
    {
        let mut removal = Removal::new();
        let mut i: usize = 0;
        while i < keys.len()
            invariant
                i <= keys.len(),
                removal.wf(),
                is_sound_queue(self@, cutoffs@, removal.queue@),
                forall|k: (DbId, TableId), n: int|
                    #[trigger] holds(self@, k, n) && self@.marked(k) && keys@.take(i as int).contains(k)
                        ==> is_queued(removal.queue@, self@.files[k][n].path@),
            decreases keys.len() - i,
        {
            let key = keys[i];
            let ghost before = removal.queue@;
            if self.marks.contains((key.0, None)) || self.marks.contains((key.0, Some(key.1))) {
                self.queue_table(&mut removal, key, None, Ghost(cutoffs@));
            }
            proof {
                assert(keys@.take(i + 1) =~= keys@.take(i as int).push(key));
                assert forall|k: (DbId, TableId), n: int|
                    #[trigger] holds(self@, k, n) && self@.marked(k) && keys@.take(i + 1).contains(
                        k,
                    ) implies is_queued(removal.queue@, self@.files[k][n].path@) by {
                    if k != key {
                        let upto = keys@.take(i + 1);
                        let a = choose|a: int| 0 <= a < upto.len() && upto[a] == k;
                        assert(keys@.take(i as int)[a] == k);
                        assert(is_queued(before, self@.files[k][n].path@));
                    }
                }
            }
            i += 1;
        }
        proof {
            assert(keys@.take(i as int) =~= keys@);
            assert forall|k: (DbId, TableId), n: int|
                #[trigger] holds(self@, k, n) && self@.marked(k) implies is_queued(
                removal.queue@,
                self@.files[k][n].path@,
            ) by {
                assert(keys@.contains(k));
            }
        }
        let mut j: usize = 0;
        while j < cutoffs.len()
            invariant
                j <= cutoffs.len(),
                removal.wf(),
                is_sound_queue(self@, cutoffs@, removal.queue@),
                forall|k: (DbId, TableId), n: int|
                    #[trigger] holds(self@, k, n) && self@.marked(k) ==> is_queued(
                        removal.queue@,
                        self@.files[k][n].path@,
                    ),
                forall|k: (DbId, TableId), n: int|
                    #[trigger] holds(self@, k, n) && is_expired(
                        cutoffs@.take(j as int),
                        k,
                        self@.files[k][n],
                    ) ==> is_queued(removal.queue@, self@.files[k][n].path@),
            decreases cutoffs.len() - j,
        {
            let c = cutoffs[j];
            let key = (c.db_id, c.table_id);
            let ghost before = removal.queue@;
            if !(self.marks.contains((key.0, None)) || self.marks.contains((key.0, Some(key.1)))) {
                proof {
                    assert forall|f: ParquetFile| f.max_time < c.cutoff implies #[trigger] is_expired(
                        cutoffs@,
                        key,
                        f,
                    ) by {
                        assert(cutoffs@[j as int].db_id == key.0);
                    }
                }
                self.queue_table(&mut removal, key, Some(c.cutoff), Ghost(cutoffs@));
            }
            proof {
                assert forall|k: (DbId, TableId), n: int|
                    #[trigger] holds(self@, k, n) && is_expired(
                        cutoffs@.take(j + 1),
                        k,
                        self@.files[k][n],
                    ) implies is_queued(removal.queue@, self@.files[k][n].path@) by {
                    let all = cutoffs@.take(j + 1);
                    let f = self@.files[k][n];
                    let a = choose|a: int|
                        0 <= a < all.len() && (#[trigger] all[a]).db_id == k.0 && all[a].table_id
                            == k.1 && f.max_time < all[a].cutoff;
                    if a < j {
                        assert(cutoffs@.take(j as int)[a] == all[a]);
                        assert(is_queued(before, f.path@));
                    } else {
                        assert(k == key);
                    }
                }
            }
            j += 1;
        }
        proof {
            assert(cutoffs@.take(j as int) =~= cutoffs@);
        }
        removal
    }

    /// Removes the files that are marked for deletion or older than their retention
    /// period allows, and returns them by table. Where there are none, marks stay
    /// in place.
    pub fn remove_files_for_deletion(&mut self, cutoffs: &Vec<RetentionCutoff>) -> (r: Vec<
        TableFiles,
    >)
        ensures
            exists|queue: Seq<Queued>|
                {
                    &&& #[trigger] is_deletion_queue(old(self)@, cutoffs@, queue)
                    &&& entries(r@) == grouped(queue)
                    &&& final(self)@ == after_deletion(old(self)@, cutoffs@, queue)
                },
    {
        let keys = self.files.keys();
        let removal = self.queue_condemned(&keys, cutoffs);
        let ghost queue = removal.queue@;
        let ghost start = self@;
        if removal.tables.len() == 0 {
            return removal.tables;
        }
        let ghost paths = paths_in(removal.paths);
        let mut i: usize = 0;
        while i < keys.len()
            invariant
                i <= keys.len(),
                keys@.no_duplicates(),
                paths == paths_in(removal.paths),
                forall|k: (DbId, TableId)| keys@.contains(k) <==> start.files.contains_key(k),
                forall|k: (DbId, TableId)|
                    start.files.contains_key(k) <==> #[trigger] self@.files.contains_key(k),
                forall|k: (DbId, TableId)| #[trigger]
                    self@.files.contains_key(k) ==> self@.files[k] == if keys@.take(
                        i as int,
                    ).contains(k) {
                        without(start.files[k], paths)
                    } else {
                        start.files[k]
                    },
                self@ == (FileState { files: self@.files, ..start }),
            decreases keys.len() - i,
        {
            let key = keys[i];
            let ghost before = self@.files;
            let ghost done = keys@.take(i as int);
            proof {
                assert(keys@.contains(keys@[i as int]));
                assert(keys@.take(i + 1) =~= done.push(key));
                assert(done.push(key)[i as int] == key);
                assert(!done.contains(key)) by {
                    if done.contains(key) {
                        let a = choose|a: int| 0 <= a < done.len() && done[a] == key;
                        assert(keys@[a] == keys@[i as int]);
                    }
                }
                assert forall|k: (DbId, TableId)| k != key implies done.push(key).contains(k)
                    == done.contains(k) by {
                    if done.contains(k) {
                        let a = choose|a: int| 0 <= a < done.len() && done[a] == k;
                        assert(done.push(key)[a] == k);
                    }
                    if done.push(key).contains(k) {
                        let a = choose|a: int| 0 <= a < done.push(key).len() && done.push(key)[a] == k;
                        assert(done[a] == k);
                    }
                }
            }
            if let Some(files) = self.files.remove(key) {
                let mut scratch = FileTotals::none();
                let kept = drop_paths(&files, &removal.paths, &mut scratch, Ghost(Seq::empty()));
                self.files.insert(key, kept);
                proof {
                    assert(self@.files =~= before.insert(key, kept@));
                }
            }
            i += 1;
        }
        proof {
            assert(keys@.take(i as int) =~= keys@);
            assert(paths =~= condemned_paths(start, cutoffs@)) by {
                assert forall|p: Seq<char>| is_queued(queue, p) implies condemned_paths(
                    start,
                    cutoffs@,
                ).contains(p) by {
                    let n = choose|n: int|
                        0 <= n < queue.len() && (#[trigger] queue[n]).file.path@ == p;
                    let key = queue[n].key;
                    let k = choose|k: int|
                        0 <= k < start.files[key].len() && start.files[key][k] == queue[n].file;
                    assert(holds(start, key, k));
                }
            }
            assert(self@.files =~= all_without(start.files, condemned_paths(start, cutoffs@)));
        }
        self.count = self.count.saturating_sub(removal.totals.count);
        self.bytes_removed = self.bytes_removed.saturating_add(removal.totals.size_bytes);
        self.rows = self.rows.saturating_sub(removal.totals.row_count);
        self.marks = MarkSet::new();
        proof {
            assert(self@ == after_deletion(start, cutoffs@, queue));
        }
        removal.tables
    }
}

/// `list` has an entry for the table.
pub open spec fn has_entry(list: Seq<TableEntry>, key: (DbId, TableId)) -> bool {
    exists|i: int| 0 <= i < list.len() && (#[trigger] list[i]).key == key
}

/// The entry lists the files of its table, and there are some.
pub open spec fn lists_table(entry: TableEntry, files: FileMap) -> bool {
    &&& files.contains_key(entry.key)
    &&& entry.files == files[entry.key]
    &&& entry.files.len() > 0
}

/// `list` has one entry for each table that has files, and lists them.
pub open spec fn lists_all(list: Seq<TableEntry>, files: FileMap) -> bool {
    &&& forall|i: int| 0 <= i < list.len() ==> lists_table(#[trigger] list[i], files)
    &&& forall|i: int, j: int| 0 <= i < j < list.len() ==> list[i].key != list[j].key
    &&& forall|k: (DbId, TableId)|
        files.contains_key(k) && files[k].len() > 0 ==> #[trigger] has_entry(list, k)
}

/// The state once these paths are known to be gone from object storage. A path
/// that has a tombstone keeps it.
pub open spec fn with_gone(t: FileState, paths: Seq<Seq<char>>) -> FileState
    decreases paths.len(),
{
    if paths.len() == 0 {
        t
    } else {
        let before = with_gone(t, paths.drop_last());
        let path = paths.last();
        if before.tombstones.contains_key(path) {
            before
        } else {
            FileState {
                tombstones: before.tombstones.insert(path, TombstoneKey::ObjectGone),
                evictions: before.evictions.push(path),
                ..before
            }
        }
    }
}

/// The state once the oldest paths known to be gone are forgotten, down to the
/// bound. A tombstone that has since taken another form stays.
pub open spec fn within_bound(t: FileState) -> FileState
    decreases t.evictions.len(),
{
    if t.evictions.len() <= MAX_EVICTION_TOMBSTONES {
        t
    } else {
        let oldest = t.evictions[0];
        let gone = t.tombstones.contains_key(oldest) && t.tombstones[oldest]
            == TombstoneKey::ObjectGone;
        within_bound(
            FileState {
                tombstones: if gone {
                    t.tombstones.remove(oldest)
                } else {
                    t.tombstones
                },
                evictions: t.evictions.drop_first(),
                ..t
            },
        )
    }
}

/// The tombstones once those of a checkpoint for files that writers persisted are
/// put back. The writer is the first segment of the path; a path without one is
/// passed over.
pub open spec fn seeded_gen1(tombstones: TombstoneMap, gen1: Seq<(String, u64)>) -> TombstoneMap
    decreases gen1.len(),
{
    if gen1.len() == 0 {
        tombstones
    } else {
        let before = seeded_gen1(tombstones, gen1.drop_last());
        let path = gen1.last().0@;
        let node_id = first_segment(path);
        if node_id.len() > 0 {
            before.insert(path, TombstoneKey::WalSeq { node_id, wal_seq: gen1.last().1 })
        } else {
            before
        }
    }
}

/// The tombstones once those of a checkpoint for files that compactors wrote are
/// put back.
pub open spec fn seeded_compaction(
    tombstones: TombstoneMap,
    compaction: Seq<(String, String)>,
) -> TombstoneMap
    decreases compaction.len(),
{
    if compaction.len() == 0 {
        tombstones
    } else {
        seeded_compaction(tombstones, compaction.drop_last()).insert(
            compaction.last().0@,
            TombstoneKey::Compaction { removing_id: compaction.last().1@ },
        )
    }
}

/// `gen1` lists the tombstones by sequence number, each path once.
pub open spec fn lists_gen1(gen1: Seq<(String, u64)>, tombstones: TombstoneMap) -> bool {
    &&& forall|i: int| #![trigger gen1[i]]
        0 <= i < gen1.len() ==> tombstones.contains_key(gen1[i].0@)
            && tombstones[gen1[i].0@] is WalSeq && tombstones[gen1[i].0@]->wal_seq == gen1[i].1
    &&& forall|p: Seq<char>|
        tombstones.contains_key(p) && tombstones[p] is WalSeq ==> exists|i: int|
            0 <= i < gen1.len() && (#[trigger] gen1[i]).0@ == p
    &&& forall|i: int, j: int| 0 <= i < j < gen1.len() ==> gen1[i].0@ != gen1[j].0@
}

/// `compaction` lists the tombstones by compaction, each path once.
pub open spec fn lists_compaction(
    compaction: Seq<(String, String)>,
    tombstones: TombstoneMap,
) -> bool {
    &&& forall|i: int| #![trigger compaction[i]]
        0 <= i < compaction.len() ==> tombstones.contains_key(compaction[i].0@)
            && tombstones[compaction[i].0@] == (TombstoneKey::Compaction {
            removing_id: compaction[i].1@,
        })
    &&& forall|p: Seq<char>|
        tombstones.contains_key(p) && tombstones[p] is Compaction ==> exists|i: int|
            0 <= i < compaction.len() && (#[trigger] compaction[i]).0@ == p
    &&& forall|i: int, j: int|
        0 <= i < j < compaction.len() ==> compaction[i].0@ != compaction[j].0@
}

impl PersistedFiles {
    /// The files of a table, in descending order of their earliest time.
    pub fn get_files(&self, db_id: DbId, table_id: TableId) -> (r: Vec<ParquetFile>)
        ensures
            is_newest_first(r@, files_of(self@.files, (db_id, table_id))),
    {
        let filter = ChunkFilter { time_lower_bound_ns: None, time_upper_bound_ns: None };
        let r = self.get_files_filtered(db_id, table_id, &filter);
        proof {
            let all = files_of(self@.files, (db_id, table_id));
            filter_everything(all, filter);
        }
        r
    }

    /// The files of a table that can matter to a query, in descending order of
    /// their earliest time.
    pub fn get_files_filtered(&self, db_id: DbId, table_id: TableId, filter: &ChunkFilter) -> (r:
        Vec<ParquetFile>)
        ensures
            is_newest_first(r@, admitted(files_of(self@.files, (db_id, table_id)), *filter)),
    {
        let ghost all = files_of(self@.files, (db_id, table_id));
        let mut chosen: Vec<ParquetFile> = Vec::new();
        let mut keys: Vec<NewestFirst> = Vec::new();
        if let Some(files) = self.files.get((db_id, table_id)) {
            let mut i: usize = 0;
            proof {
                reveal(Seq::filter);
                assert(files@.take(0) =~= Seq::empty());
                assert(keys@ =~= time_keys(chosen@));
            }
            while i < files.len()
                invariant
                    i <= files.len(),
                    chosen@ == admitted(files@.take(i as int), *filter),
                    keys@ == time_keys(chosen@),
                decreases files.len() - i,
            {
                proof {
                    reveal(Seq::filter);
                    assert(files@.take(i + 1).drop_last() =~= files@.take(i as int));
                }
                if filter.test_time_stamp_min_max(files[i].min_time, files[i].max_time) {
                    chosen.push(files[i].duplicate());
                    keys.push(NewestFirst(files[i].min_time));
                    proof {
                        assert(keys@ =~= time_keys(chosen@));
                    }
                }
                i += 1;
            }
            proof {
                assert(files@.take(i as int) =~= files@);
            }
        } else {
            proof {
                reveal(Seq::filter);
                assert(keys@ =~= time_keys(chosen@));
            }
        }
        let order = stable_order(&keys);
        let mut out: Vec<ParquetFile> = Vec::new();
        let mut n: usize = 0;
        while n < order.len()
            invariant
                n <= order.len(),
                is_stable_order(keys@, order@),
                keys@.len() == chosen@.len(),
                out.len() == n,
                forall|k: int| 0 <= k < n ==> out@[k] == chosen@[order@[k] as int],
            decreases order.len() - n,
        {
            out.push(chosen[order[n]].duplicate());
            n += 1;
        }
        proof {
            assert(out@ =~= reordered(chosen@, order@));
        }
        out
    }

    /// The tombstones to keep in a checkpoint, by what decides when they can be
    /// dropped: path and sequence number, and path and removing compaction. Those
    /// of files known to be gone are not kept.
    pub fn tombstones_for_checkpoint(&self) -> (r: (Vec<(String, u64)>, Vec<(String, String)>))
        ensures
            lists_gen1(r.0@, self@.tombstones),
            lists_compaction(r.1@, self@.tombstones),
    {
        let paths = self.tombstones.keys();
        let ghost stones = self@.tombstones;
        let mut gen1: Vec<(String, u64)> = Vec::new();
        let mut compaction: Vec<(String, String)> = Vec::new();
        let mut i: usize = 0;
        while i < paths.len()
            invariant
                i <= paths.len(),
                stones == tombstones_in(self.tombstones),
                texts(paths@).no_duplicates(),
                forall|p: Seq<char>| texts(paths@).contains(p) <==> stones.contains_key(p),
                forall|k: int| #![trigger gen1@[k]]
                    0 <= k < gen1.len() ==> stones.contains_key(gen1@[k].0@)
                        && stones[gen1@[k].0@] is WalSeq && stones[gen1@[k].0@]->wal_seq
                        == gen1@[k].1,
                forall|k: int| #![trigger compaction@[k]]
                    0 <= k < compaction.len() ==> stones.contains_key(compaction@[k].0@)
                        && stones[compaction@[k].0@] == (TombstoneKey::Compaction {
                        removing_id: compaction@[k].1@,
                    }),
                forall|k: int| #![trigger gen1@[k]]
                    0 <= k < gen1.len() ==> exists|m: int|
                        0 <= m < i && #[trigger] texts(paths@)[m] == gen1@[k].0@,
                forall|k: int| #![trigger compaction@[k]]
                    0 <= k < compaction.len() ==> exists|m: int|
                        0 <= m < i && #[trigger] texts(paths@)[m] == compaction@[k].0@,
                forall|k: int, l: int| 0 <= k < l < gen1.len() ==> gen1@[k].0@ != gen1@[l].0@,
                forall|k: int, l: int|
                    0 <= k < l < compaction.len() ==> compaction@[k].0@ != compaction@[l].0@,
                forall|m: int| #![trigger texts(paths@)[m]]
                    0 <= m < i && stones[texts(paths@)[m]] is WalSeq ==> exists|k: int|
                        0 <= k < gen1.len() && (#[trigger] gen1@[k]).0@ == texts(paths@)[m],
                forall|m: int| #![trigger texts(paths@)[m]]
                    0 <= m < i && stones[texts(paths@)[m]] is Compaction ==> exists|k: int|
                        0 <= k < compaction.len() && (#[trigger] compaction@[k]).0@ == texts(
                            paths@,
                        )[m],
            decreases paths.len() - i,
        {
            let ghost path = paths@[i as int]@;
            let ghost gen1_before = gen1@;
            let ghost compaction_before = compaction@;
            proof {
                assert(texts(paths@)[i as int] == path);
                assert(texts(paths@).contains(path));
                assert forall|m: int| 0 <= m < i implies texts(paths@)[m] != path by {
                    assert(texts(paths@)[m] != texts(paths@)[i as int]);
                }
            }
            if let Some(gc) = self.tombstones.get(paths[i].as_str()) {
                match gc {
                    TombstoneGc::WalSeq { wal_seq, .. } => {
                        gen1.push((paths[i].clone(), *wal_seq));
                        proof {
                            let n = gen1_before.len() as int;
                            assert(gen1@[n].0@ == path);
                            assert(gen1@ =~= gen1_before.push(gen1@[n]));
                        }
                    },
                    TombstoneGc::Compaction { removing_id } => {
                        compaction.push((paths[i].clone(), removing_id.clone()));
                        proof {
                            let n = compaction_before.len() as int;
                            assert(compaction@[n].0@ == path);
                            assert(compaction@ =~= compaction_before.push(compaction@[n]));
                        }
                    },
                    TombstoneGc::ObjectGone => {},
                }
            }
            proof {
                assert forall|m: int| #![trigger texts(paths@)[m]]
                    0 <= m < i + 1 && stones[texts(paths@)[m]] is WalSeq implies exists|k: int|
                    0 <= k < gen1.len() && (#[trigger] gen1@[k]).0@ == texts(paths@)[m] by {
                    if m < i {
                        let k = choose|k: int|
                            0 <= k < gen1_before.len() && (#[trigger] gen1_before[k]).0@ == texts(
                                paths@,
                            )[m];
                        assert(gen1@[k] == gen1_before[k]);
                    }
                }
                assert forall|m: int| #![trigger texts(paths@)[m]]
                    0 <= m < i + 1 && stones[texts(paths@)[m]] is Compaction implies exists|k: int|
                    0 <= k < compaction.len() && (#[trigger] compaction@[k]).0@ == texts(
                        paths@,
                    )[m] by {
                    if m < i {
                        let k = choose|k: int|
                            0 <= k < compaction_before.len() && (#[trigger] compaction_before[k]).0@
                                == texts(paths@)[m];
                        assert(compaction@[k] == compaction_before[k]);
                    }
                }
            }
            i += 1;
        }
        proof {
            assert forall|p: Seq<char>|
                stones.contains_key(p) && stones[p] is WalSeq implies exists|k: int|
                0 <= k < gen1.len() && (#[trigger] gen1@[k]).0@ == p by {
                assert(texts(paths@).contains(p));
                let m = choose|m: int| 0 <= m < texts(paths@).len() && texts(paths@)[m] == p;
                assert(texts(paths@)[m] == p);
            }
            assert forall|p: Seq<char>|
                stones.contains_key(p) && stones[p] is Compaction implies exists|k: int|
                0 <= k < compaction.len() && (#[trigger] compaction@[k]).0@ == p by {
                assert(texts(paths@).contains(p));
                let m = choose|m: int| 0 <= m < texts(paths@).len() && texts(paths@)[m] == p;
                assert(texts(paths@)[m] == p);
            }
        }
        (gen1, compaction)
    }

    /// Puts back the tombstones of a checkpoint, before newer manifests are folded
    /// on top of it.
    pub fn seed_tombstones(
        &mut self,
        gen1: &Vec<(String, u64)>,
        compaction: &Vec<(String, String)>,
    )
        ensures
            final(self)@ == (FileState {
                tombstones: seeded_compaction(
                    seeded_gen1(old(self)@.tombstones, gen1@),
                    compaction@,
                ),
                ..old(self)@
            }),
    {
        let ghost start = self@;
        let mut i: usize = 0;
        proof {
            assert(gen1@.take(0) =~= Seq::empty());
        }
        while i < gen1.len()
            invariant
                i <= gen1.len(),
                self@ == (FileState {
                    tombstones: seeded_gen1(start.tombstones, gen1@.take(i as int)),
                    ..start
                }),
            decreases gen1.len() - i,
        {
            proof {
                assert(gen1@.take(i + 1).drop_last() =~= gen1@.take(i as int));
            }
            let node_id = path_head(gen1[i].0.as_str());
            if node_id.as_str().unicode_len() > 0 {
                self.tombstones.insert(
                    gen1[i].0.clone(),
                    TombstoneGc::WalSeq { node_id, wal_seq: gen1[i].1 },
                );
            }
            i += 1;
        }
        let ghost middle = self@.tombstones;
        let mut j: usize = 0;
        proof {
            assert(gen1@.take(i as int) =~= gen1@);
            assert(compaction@.take(0) =~= Seq::empty());
        }
        while j < compaction.len()
            invariant
                j <= compaction.len(),
                self@ == (FileState {
                    tombstones: seeded_compaction(middle, compaction@.take(j as int)),
                    ..start
                }),
            decreases compaction.len() - j,
        {
            proof {
                assert(compaction@.take(j + 1).drop_last() =~= compaction@.take(j as int));
            }
            self.tombstones.insert(
                compaction[j].0.clone(),
                TombstoneGc::Compaction { removing_id: compaction[j].1.clone() },
            );
            j += 1;
        }
        proof {
            assert(compaction@.take(j as int) =~= compaction@);
        }
    }

    /// Remembers paths that are known to be gone from object storage, so that no
    /// later fold brings them back. Paths are written once, so this hides no live
    /// file.
    pub fn tombstone_evicted_paths(&mut self, paths: &Vec<String>)
        ensures
            final(self)@ == within_bound(with_gone(old(self)@, texts(paths@))),
    {
        let ghost start = self@;
        let ghost list = texts(paths@);
        let mut i: usize = 0;
        proof {
            assert(list.take(0) =~= Seq::empty());
        }
        while i < paths.len()
            invariant
                i <= paths.len(),
                list == texts(paths@),
                self@ == with_gone(start, list.take(i as int)),
            decreases paths.len() - i,
        {
            proof {
                assert(list.take(i + 1).drop_last() =~= list.take(i as int));
                assert(list.take(i + 1).last() == paths@[i as int]@);
            }
            if self.tombstones.get(paths[i].as_str()).is_none() {
                let ghost before = self@.evictions;
                self.tombstones.insert(paths[i].clone(), TombstoneGc::ObjectGone);
                self.evictions.push_back(paths[i].clone());
                proof {
                    assert(self@.evictions =~= before.push(paths@[i as int]@));
                }
            }
            i += 1;
        }
        proof {
            assert(list.take(i as int) =~= list);
        }
        let ghost full = self@;
        while self.evictions.len() > MAX_EVICTION_TOMBSTONES
            invariant
                within_bound(self@) == within_bound(full),
            decreases self.evictions.len(),
        {
            let ghost before = self@;
            let ghost queue = self.evictions@;
            if let Some(oldest) = self.evictions.pop_front() {
                proof {
                    assert(before.evictions[0] == oldest@);
                    assert(texts(self.evictions@) =~= before.evictions.drop_first());
                }
                let gone: bool = match self.tombstones.get(oldest.as_str()) {
                    Some(TombstoneGc::ObjectGone) => true,
                    _ => false,
                };
                if gone {
                    self.tombstones.remove(oldest.as_str());
                }
            }
        }
    }
}

proof fn filter_everything(files: Seq<ParquetFile>, filter: ChunkFilter)
    requires
        filter.time_lower_bound_ns is None,
        filter.time_upper_bound_ns is None,
    ensures
        admitted(files, filter) == files,
    decreases files.len(),
{
    reveal(Seq::filter);
    if files.len() > 0 {
        filter_everything(files.drop_last(), filter);
        assert(files.drop_last().push(files.last()) =~= files);
    } else {
        assert(files =~= Seq::empty());
    }
}

/// The position of the first checkpoint of the earliest month.
pub open spec fn is_earliest(list: Seq<PersistedSnapshotCheckpoint>, i: int) -> bool {
    &&& 0 <= i < list.len()
    &&& forall|j: int| 0 <= j < list.len() ==> list[i].year_month <= (#[trigger] list[j]).year_month
    &&& forall|j: int| 0 <= j < i ==> list[i].year_month < (#[trigger] list[j]).year_month
}

/// `sorted` is `list` in order of month, those of one month in the order in which
/// they stand.
pub open spec fn in_month_order(
    list: Seq<PersistedSnapshotCheckpoint>,
    sorted: Seq<PersistedSnapshotCheckpoint>,
) -> bool
    decreases list.len(),
{
    &&& sorted.len() == list.len()
    &&& list.len() > 0 ==> exists|i: int| #[trigger]
        is_earliest(list, i) && sorted[0] == list[i] && in_month_order(
            list.remove(i),
            sorted.skip(1),
        )
}

/// `merged[i]` is what merging the first `i + 1` checkpoints, one by one, gives.
pub open spec fn is_merge_chain<F>(
    merge: F,
    sorted: Seq<PersistedSnapshotCheckpoint>,
    merged: Seq<PersistedSnapshotCheckpoint>,
) -> bool where
    F: Fn(PersistedSnapshotCheckpoint, PersistedSnapshotCheckpoint) -> PersistedSnapshotCheckpoint,
 {
    &&& merged.len() == sorted.len()
    &&& merged.len() > 0 ==> merged[0] == sorted[0]
    &&& forall|i: int| #![trigger merged[i]]
        0 < i < merged.len() ==> call_ensures(merge, (merged[i - 1], sorted[i]), merged[i])
}

/// Takes out the first checkpoint of the earliest month.
fn take_earliest(list: &mut Vec<PersistedSnapshotCheckpoint>) -> (r: PersistedSnapshotCheckpoint)
    requires
        old(list).len() > 0,
    ensures
        exists|i: int| #[trigger]
            is_earliest(old(list)@, i) && r == old(list)@[i] && final(list)@ == old(list)@.remove(
                i,
            ),
{
    let mut at: usize = 0;
    let mut i: usize = 1;
    while i < list.len()
        invariant
            1 <= i <= list.len(),
            at < i,
            list@ == old(list)@,
            forall|j: int|
                0 <= j < i ==> list@[at as int].year_month <= (#[trigger] list@[j]).year_month,
            forall|j: int|
                0 <= j < at ==> list@[at as int].year_month < (#[trigger] list@[j]).year_month,
        decreases list.len() - i,
    {
        if list[i].year_month < list[at].year_month {
            at = i;
        }
        i += 1;
    }
    proof {
        assert(is_earliest(list@, at as int));
    }
    list.remove(at)
}

/// `taken` came out of `list` one by one, earliest first, and `left` remains.
spec fn taken_from(
    list: Seq<PersistedSnapshotCheckpoint>,
    taken: Seq<PersistedSnapshotCheckpoint>,
    left: Seq<PersistedSnapshotCheckpoint>,
) -> bool
    decreases taken.len(),
{
    if taken.len() == 0 {
        left == list
    } else {
        exists|i: int| #[trigger]
            is_earliest(list, i) && taken[0] == list[i] && taken_from(
                list.remove(i),
                taken.skip(1),
                left,
            )
    }
}

proof fn taken_then_earliest(
    list: Seq<PersistedSnapshotCheckpoint>,
    taken: Seq<PersistedSnapshotCheckpoint>,
    left: Seq<PersistedSnapshotCheckpoint>,
    i: int,
)
    requires
        taken_from(list, taken, left),
        is_earliest(left, i),
    ensures
        taken_from(list, taken.push(left[i]), left.remove(i)),
    decreases taken.len(),
{
    let more = taken.push(left[i]);
    if taken.len() == 0 {
        assert(more.skip(1) =~= Seq::empty());
        assert(is_earliest(list, i));
        assert(taken_from(list.remove(i), more.skip(1), left.remove(i)));
    } else {
        let k = choose|k: int| #[trigger]
            is_earliest(list, k) && taken[0] == list[k] && taken_from(
                list.remove(k),
                taken.skip(1),
                left,
            );
        taken_then_earliest(list.remove(k), taken.skip(1), left, i);
        assert(more.skip(1) =~= taken.skip(1).push(left[i]));
        assert(more[0] == list[k]);
    }
}

proof fn all_taken_in_order(
    list: Seq<PersistedSnapshotCheckpoint>,
    taken: Seq<PersistedSnapshotCheckpoint>,
    left: Seq<PersistedSnapshotCheckpoint>,
)
    requires
        taken_from(list, taken, left),
        left.len() == 0,
    ensures
        in_month_order(list, taken),
    decreases taken.len(),
{
    if taken.len() > 0 {
        let k = choose|k: int| #[trigger]
            is_earliest(list, k) && taken[0] == list[k] && taken_from(
                list.remove(k),
                taken.skip(1),
                left,
            );
        all_taken_in_order(list.remove(k), taken.skip(1), left);
        assert(list.remove(k).len() == list.len() - 1);
    }
}

impl PersistedFiles {
    /// Tracks the files that checkpoints list, merged in order of month with
    /// `merge`, and the manifests that are newer, folded on top.
    pub fn new_from_checkpoints_and_snapshots<F>(
        checkpoints: Vec<PersistedSnapshotCheckpoint>,
        additional_snapshots: &Vec<PersistedSnapshot>,
        merge: F,
    ) -> (r: PersistedFiles) where
        F: Fn(PersistedSnapshotCheckpoint, PersistedSnapshotCheckpoint) ->
            PersistedSnapshotCheckpoint,

        requires
            forall|a: PersistedSnapshotCheckpoint, b: PersistedSnapshotCheckpoint|
                call_requires(merge, (a, b)),
        ensures
            checkpoints.len() == 0 ==> r@ == after_folds(
                nothing_tracked(),
                manifests(additional_snapshots@),
            ),
            checkpoints.len() > 0 ==> exists|
                sorted: Seq<PersistedSnapshotCheckpoint>,
                merged: Seq<PersistedSnapshotCheckpoint>,
            | #[trigger]
                is_merge_chain(merge, sorted, merged) && in_month_order(checkpoints@, sorted)
                    && r@ == after_folds(
                    from_checkpoint(merged.last()),
                    manifests(additional_snapshots@),
                ),
    {
        let ghost all = checkpoints@;
        if checkpoints.len() == 0 {
            let mut r = PersistedFiles::new();
            r.fold_all(additional_snapshots);
            return r;
        }
        let mut left = checkpoints;
        let mut sum = take_earliest(&mut left);
        let ghost mut taken: Seq<PersistedSnapshotCheckpoint> = seq![sum];
        let ghost mut merged: Seq<PersistedSnapshotCheckpoint> = seq![sum];
        proof {
            let i = choose|i: int| #[trigger]
                is_earliest(all, i) && sum == all[i] && left@ == all.remove(i);
            assert(taken_from(all, Seq::empty(), all));
            taken_then_earliest(all, Seq::empty(), all, i);
            assert(Seq::empty().push(all[i]) =~= taken);
        }
        while left.len() > 0
            invariant
                forall|a: PersistedSnapshotCheckpoint, b: PersistedSnapshotCheckpoint|
                    call_requires(merge, (a, b)),
                taken_from(all, taken, left@),
                is_merge_chain(merge, taken, merged),
                merged.len() > 0,
                merged.last() == sum,
            decreases left.len(),
        {
            let ghost before = left@;
            let next = take_earliest(&mut left);
            proof {
                let i = choose|i: int| #[trigger]
                    is_earliest(before, i) && next == before[i] && left@ == before.remove(i);
                taken_then_earliest(all, taken, before, i);
                taken = taken.push(next);
            }
            sum = merge(sum, next);
            proof {
                merged = merged.push(sum);
            }
        }
        proof {
            all_taken_in_order(all, taken, left@);
        }
        let mut r = PersistedFiles::from_merged(sum);
        r.fold_all(additional_snapshots);
        r
    }
}

} // verus!

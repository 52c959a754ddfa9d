//! How a manifest changes the set of live files.
//!
//! Files are identified by their object-store path everywhere. Adds are
//! deduplicated by path and suppressed by tombstones; removals drop every copy
//! with a matching path and leave a tombstone where there was none to drop.

use vstd::prelude::*;

use crate::collections::{
    indexed_files, paths_in, tombstones_in, FileIndex, FileMap, PathSet, TombstoneIndex,
    TombstoneMap,
};
use crate::files::{
    entries, has_path, path_set, DbId, Manifest, ParquetFile, PersistedSnapshot, TableEntry,
    TableFiles, TableId,
};
use crate::tombstone::{make_tombstone, opt_text, tombstone_for};

verus! {

/// The files of a table, none where the map does not have it.
pub open spec fn files_of(files: FileMap, key: (DbId, TableId)) -> Seq<ParquetFile> {
    if files.contains_key(key) {
        files[key]
    } else {
        Seq::empty()
    }
}

/// Those of `new` that join `existing`, in order: neither suppressed nor with the
/// path of a file that is already there.
pub open spec fn accepted(
    existing: Seq<ParquetFile>,
    new: Seq<ParquetFile>,
    suppressed: Set<Seq<char>>,
) -> Seq<ParquetFile>
    decreases new.len(),
{
    if new.len() == 0 {
        Seq::empty()
    } else {
        let before = accepted(existing, new.drop_last(), suppressed);
        let file = new.last();
        if suppressed.contains(file.path@) || has_path(existing + before, file.path@) {
            before
        } else {
            before.push(file)
        }
    }
}

/// The files of each table once `added` is folded in.
pub open spec fn with_added(
    files: FileMap,
    added: Seq<TableEntry>,
    suppressed: Set<Seq<char>>,
) -> FileMap
    decreases added.len(),
{
    if added.len() == 0 {
        files
    } else {
        let before = with_added(files, added.drop_last(), suppressed);
        let entry = added.last();
        let existing = files_of(before, entry.key);
        before.insert(entry.key, existing + accepted(existing, entry.files, suppressed))
    }
}

/// The files that join the tables when `added` is folded in.
pub open spec fn joining(
    files: FileMap,
    added: Seq<TableEntry>,
    suppressed: Set<Seq<char>>,
) -> Seq<ParquetFile>
    decreases added.len(),
{
    if added.len() == 0 {
        Seq::empty()
    } else {
        let entry = added.last();
        let existing = files_of(with_added(files, added.drop_last(), suppressed), entry.key);
        joining(files, added.drop_last(), suppressed) + accepted(existing, entry.files, suppressed)
    }
}

/// The files whose path is not in `paths`.
pub open spec fn without(files: Seq<ParquetFile>, paths: Set<Seq<char>>) -> Seq<ParquetFile> {
    files.filter(|f: ParquetFile| !paths.contains(f.path@))
}

/// The files whose path is in `paths`.
pub open spec fn within(files: Seq<ParquetFile>, paths: Set<Seq<char>>) -> Seq<ParquetFile> {
    files.filter(|f: ParquetFile| paths.contains(f.path@))
}

/// The files of each table once `removed` is folded in.
pub open spec fn with_removed(files: FileMap, removed: Seq<TableEntry>) -> FileMap
    decreases removed.len(),
{
    if removed.len() == 0 {
        files
    } else {
        let before = with_removed(files, removed.drop_last());
        let entry = removed.last();
        if before.contains_key(entry.key) {
            before.insert(entry.key, without(before[entry.key], path_set(entry.files)))
        } else {
            before
        }
    }
}

/// The files that leave the tables when `removed` is folded in.
pub open spec fn leaving(files: FileMap, removed: Seq<TableEntry>) -> Seq<ParquetFile>
    decreases removed.len(),
{
    if removed.len() == 0 {
        Seq::empty()
    } else {
        let entry = removed.last();
        let existing = files_of(with_removed(files, removed.drop_last()), entry.key);
        leaving(files, removed.drop_last()) + within(existing, path_set(entry.files))
    }
}

/// The tombstones once the removal of `targets` from a table that holds
/// `existing` has left its own.
pub open spec fn buried(
    tombstones: TombstoneMap,
    existing: Seq<ParquetFile>,
    targets: Seq<ParquetFile>,
    source: Option<Seq<char>>,
) -> TombstoneMap
    decreases targets.len(),
{
    if targets.len() == 0 {
        tombstones
    } else {
        let before = buried(tombstones, existing, targets.drop_last(), source);
        let path = targets.last().path@;
        match tombstone_for(path, source) {
            Some(key) if !has_path(existing, path) => before.insert(path, key),
            _ => before,
        }
    }
}

/// The tombstones once `removed` is folded in.
pub open spec fn with_buried(
    files: FileMap,
    tombstones: TombstoneMap,
    removed: Seq<TableEntry>,
    source: Option<Seq<char>>,
) -> TombstoneMap
    decreases removed.len(),
{
    if removed.len() == 0 {
        tombstones
    } else {
        let entry = removed.last();
        buried(
            with_buried(files, tombstones, removed.drop_last(), source),
            files_of(with_removed(files, removed.drop_last()), entry.key),
            entry.files,
            source,
        )
    }
}

/// The live files and the tombstones.
pub struct LiveFiles {
    pub files: FileMap,
    pub tombstones: TombstoneMap,
}

/// The live files and the tombstones once a manifest is folded in: its adds
/// first, then its removals.
pub open spec fn folded(
    live: LiveFiles,
    manifest: Manifest,
    source: Option<Seq<char>>,
) -> LiveFiles {
    let grown = with_added(live.files, manifest.added, live.tombstones.dom());
    LiveFiles {
        files: with_removed(grown, manifest.removed),
        tombstones: with_buried(grown, live.tombstones, manifest.removed, source),
    }
}

/// The files that join when a manifest is folded in.
pub open spec fn fold_joins(live: LiveFiles, manifest: Manifest) -> Seq<ParquetFile> {
    joining(live.files, manifest.added, live.tombstones.dom())
}

/// The files that leave when a manifest is folded in.
pub open spec fn fold_leaves(live: LiveFiles, manifest: Manifest) -> Seq<ParquetFile> {
    leaving(with_added(live.files, manifest.added, live.tombstones.dom()), manifest.removed)
}

/// A number, or the largest `u64` where it is larger.
pub open spec fn clamped(n: nat) -> u64 {
    if n <= u64::MAX {
        n as u64
    } else {
        u64::MAX
    }
}

/// The bytes of the files together.
pub open spec fn total_bytes(files: Seq<ParquetFile>) -> nat
    decreases files.len(),
{
    if files.len() == 0 {
        0
    } else {
        total_bytes(files.drop_last()) + files.last().size_bytes as nat
    }
}

/// The rows of the files together.
pub open spec fn total_rows(files: Seq<ParquetFile>) -> nat
    decreases files.len(),
{
    if files.len() == 0 {
        0
    } else {
        total_rows(files.drop_last()) + files.last().row_count as nat
    }
}

/// File, byte and row totals; a total beyond `u64::MAX` stays there.
#[derive(Debug, Clone, Copy, PartialEq, Eq, Structural)]
pub struct FileTotals {
    pub count: u64,
    pub size_bytes: u64,
    pub row_count: u64,
}

impl FileTotals {
    /// These are the totals of `files`.
    pub open spec fn of(self, files: Seq<ParquetFile>) -> bool {
        &&& self.count == clamped(files.len())
        &&& self.size_bytes == clamped(total_bytes(files))
        &&& self.row_count == clamped(total_rows(files))
    }

    /// The totals of no files.
    pub fn none() -> (r: FileTotals)
        ensures
            r.of(Seq::empty()),
    {
        FileTotals { count: 0, size_bytes: 0, row_count: 0 }
    }

    /// Takes one more file into account.
    pub(crate) fn count_file(&mut self, file: &ParquetFile, Ghost(files): Ghost<Seq<ParquetFile>>)
        requires
            old(self).of(files),
        ensures
            final(self).of(files.push(*file)),
    {
        proof {
            assert(files.push(*file).drop_last() =~= files);
        }
        self.count = self.count.saturating_add(1);
        self.size_bytes = self.size_bytes.saturating_add(file.size_bytes);
        self.row_count = self.row_count.saturating_add(file.row_count);
    }
}

/// The totals of a list of files.
pub fn totals_of(files: &Vec<ParquetFile>) -> (r: FileTotals)
    ensures
        r.of(files@),
{
    let mut totals = FileTotals::none();
    let mut i: usize = 0;
    proof {
        assert(files@.take(0) =~= Seq::empty());
    }
    while i < files.len()
        invariant
            i <= files.len(),
            totals.of(files@.take(i as int)),
        decreases files.len() - i,
    {
        totals.count_file(&files[i], Ghost(files@.take(i as int)));
        i += 1;
        proof {
            assert(files@.take(i as int) =~= files@.take(i - 1).push(files@[i - 1]));
        }
    }
    proof {
        assert(files@.take(i as int) =~= files@);
    }
    totals
}

/// What folding one manifest changed. Only files that were added, and only
/// files that were there to remove, count.
#[derive(Debug, Clone, Copy, PartialEq, Eq, Structural)]
pub struct SnapshotFoldDelta {
    pub added: FileTotals,
    pub removed: FileTotals,
}

/// The paths of a list of files.
fn paths_of(files: &Vec<ParquetFile>) -> (r: PathSet)
    ensures
        paths_in(r) == path_set(files@),
{
    let mut set = PathSet::new();
    let mut i: usize = 0;
    proof {
        assert(paths_in(set) =~= path_set(files@.take(0)));
    }
    while i < files.len()
        invariant
            i <= files.len(),
            paths_in(set) == path_set(files@.take(i as int)),
        decreases files.len() - i,
    {
        let ghost before = files@.take(i as int);
        set.insert(files[i].path.clone());
        i += 1;
        proof {
            let after = files@.take(i as int);
            assert(after =~= before.push(files@[i - 1]));
            path_set_push(before, files@[i - 1]);
        }
    }
    proof {
        assert(files@.take(i as int) =~= files@);
    }
    set
}

proof fn path_set_push(files: Seq<ParquetFile>, file: ParquetFile)
    ensures
        path_set(files.push(file)) == path_set(files).insert(file.path@),
{
    let all = files.push(file);
    assert forall|p: Seq<char>| has_path(all, p) == (has_path(files, p) || p == file.path@) by {
        if has_path(files, p) {
            let i = choose|i: int| 0 <= i < files.len() && (#[trigger] files[i]).path@ == p;
            assert(all[i] == files[i]);
        }
        if p == file.path@ {
            assert(all[files.len() as int].path@ == p);
        }
        if has_path(all, p) {
            let i = choose|i: int| 0 <= i < all.len() && (#[trigger] all[i]).path@ == p;
            if i < files.len() {
                assert(files[i].path@ == p);
            }
        }
    }
    assert(path_set(all) =~= path_set(files).insert(file.path@));
}

/// Folds the files that a manifest adds to one table.
fn add_table(
    index: &mut FileIndex,
    tombstones: &TombstoneIndex,
    table: &TableFiles,
    totals: &mut FileTotals,
    Ghost(joined): Ghost<Seq<ParquetFile>>,
)
    requires
        old(totals).of(joined),
    ensures
        ({
            let existing = files_of(indexed_files(*old(index)), table@.key);
            let new = accepted(existing, table@.files, tombstones_in(*tombstones).dom());
            &&& indexed_files(*final(index)) == indexed_files(*old(index)).insert(
                table@.key,
                existing + new,
            )
            &&& final(totals).of(joined + new)
        }),
{
    let key = (table.db_id, table.table_id);
    let ghost suppressed = tombstones_in(*tombstones).dom();
    let ghost existing = files_of(indexed_files(*index), key);
    let mut files: Vec<ParquetFile> = match index.remove(key) {
        Some(files) => files,
        None => Vec::new(),
    };
    let mut seen = paths_of(&files);
    let mut i: usize = 0;
    proof {
        assert(table.files@.take(0) =~= Seq::empty());
        assert(existing + Seq::<ParquetFile>::empty() =~= existing);
        assert(joined + Seq::<ParquetFile>::empty() =~= joined);
    }
    while i < table.files.len()
        invariant
            i <= table.files.len(),
            suppressed == tombstones_in(*tombstones).dom(),
            files@ == existing + accepted(existing, table.files@.take(i as int), suppressed),
            paths_in(seen) == path_set(files@),
            totals.of(joined + accepted(existing, table.files@.take(i as int), suppressed)),
        decreases table.files.len() - i,
    {
        let file = &table.files[i];
        let ghost part = table.files@.take(i + 1);
        let ghost before = accepted(existing, table.files@.take(i as int), suppressed);
        proof {
            assert(part.drop_last() =~= table.files@.take(i as int));
            assert(part.last() == *file);
            assert((existing + before).push(*file) =~= existing + before.push(*file));
            assert((joined + before).push(*file) =~= joined + before.push(*file));
        }
        if tombstones.get(file.path.as_str()).is_none() {
            proof {
                path_set_push(files@, *file);
                assert(paths_in(seen).contains(file.path@) == has_path(files@, file.path@));
            }
            let ghost known = paths_in(seen);
            if seen.insert(file.path.clone()) {
                totals.count_file(file, Ghost(joined + before));
                files.push(file.duplicate());
            } else {
                proof {
                    assert(paths_in(seen) =~= known);
                }
            }
        }
        i += 1;
    }
    proof {
        assert(table.files@.take(i as int) =~= table.files@);
    }
    index.insert(key, files);
    proof {
        assert(indexed_files(*index) =~= indexed_files(*old(index)).insert(key, files@));
    }
}

/// Takes the files with a path in `paths` out of `files`.
pub(crate) fn drop_paths(
    files: &Vec<ParquetFile>,
    paths: &PathSet,
    totals: &mut FileTotals,
    Ghost(left): Ghost<Seq<ParquetFile>>,
) -> (r: Vec<ParquetFile>)
    requires
        old(totals).of(left),
    ensures
        r@ == without(files@, paths_in(*paths)),
        final(totals).of(left + within(files@, paths_in(*paths))),
{
    broadcast use vstd::seq_lib::group_filter_ensures;

    let mut kept: Vec<ParquetFile> = Vec::new();
    let mut i: usize = 0;
    let ghost set = paths_in(*paths);
    proof {
        assert(without(files@.take(0), set) =~= Seq::empty());
        assert(left + within(files@.take(0), set) =~= left);
    }
    while i < files.len()
        invariant
            i <= files.len(),
            set == paths_in(*paths),
            kept@ == without(files@.take(i as int), set),
            totals.of(left + within(files@.take(i as int), set)),
        decreases files.len() - i,
    {
        let file = &files[i];
        proof {
            let part = files@.take(i + 1);
            assert(part.drop_last() =~= files@.take(i as int));
            assert(part.last() == *file);
            reveal(Seq::filter);
            let gone = within(files@.take(i as int), set);
            assert((left + gone).push(*file) =~= left + gone.push(*file));
        }
        if paths.contains(file.path.as_str()) {
            totals.count_file(file, Ghost(left + within(files@.take(i as int), set)));
        } else {
            kept.push(file.duplicate());
        }
        i += 1;
    }
    proof {
        assert(files@.take(i as int) =~= files@);
    }
    kept
}

/// Leaves a tombstone for each target that is not among the files that were
/// there.
fn bury_absent(
    tombstones: &mut TombstoneIndex,
    present: &PathSet,
    targets: &Vec<ParquetFile>,
    source: Option<&str>,
    Ghost(existing): Ghost<Seq<ParquetFile>>,
)
    requires
        paths_in(*present) == path_set(existing),
    ensures
        tombstones_in(*final(tombstones)) == buried(
            tombstones_in(*old(tombstones)),
            existing,
            targets@,
            opt_text(source),
        ),
{
    let ghost start = tombstones_in(*tombstones);
    let mut i: usize = 0;
    proof {
        assert(targets@.take(0) =~= Seq::empty());
    }
    while i < targets.len()
        invariant
            i <= targets.len(),
            paths_in(*present) == path_set(existing),
            tombstones_in(*tombstones) == buried(
                start,
                existing,
                targets@.take(i as int),
                opt_text(source),
            ),
        decreases targets.len() - i,
    {
        let file = &targets[i];
        proof {
            let part = targets@.take(i + 1);
            assert(part.drop_last() =~= targets@.take(i as int));
            assert(part.last() == *file);
            assert(paths_in(*present).contains(file.path@) == has_path(existing, file.path@));
        }
        if !present.contains(file.path.as_str()) {
            if let Some(gc) = make_tombstone(file.path.as_str(), source) {
                tombstones.insert(file.path.clone(), gc);
            }
        }
        i += 1;
    }
    proof {
        assert(targets@.take(i as int) =~= targets@);
    }
}

/// Folds the files that a manifest removes from one table.
fn remove_table(
    index: &mut FileIndex,
    tombstones: &mut TombstoneIndex,
    table: &TableFiles,
    source: Option<&str>,
    totals: &mut FileTotals,
    Ghost(left): Ghost<Seq<ParquetFile>>,
)
    requires
        old(totals).of(left),
    ensures
        ({
            let files = indexed_files(*old(index));
            let existing = files_of(files, table@.key);
            let paths = path_set(table@.files);
            &&& indexed_files(*final(index)) == if files.contains_key(table@.key) {
                files.insert(table@.key, without(existing, paths))
            } else {
                files
            }
            &&& tombstones_in(*final(tombstones)) == buried(
                tombstones_in(*old(tombstones)),
                existing,
                table@.files,
                opt_text(source),
            )
            &&& final(totals).of(left + within(existing, paths))
        }),
{
    let key = (table.db_id, table.table_id);
    let targets = paths_of(&table.files);
    let ghost existing = files_of(indexed_files(*index), key);
    match index.remove(key) {
        Some(files) => {
            let present = paths_of(&files);
            let kept = drop_paths(&files, &targets, totals, Ghost(left));
            index.insert(key, kept);
            bury_absent(tombstones, &present, &table.files, source, Ghost(existing));
            proof {
                assert(indexed_files(*index) =~= indexed_files(*old(index)).insert(key, kept@));
            }
        },
        None => {
            let nothing = PathSet::new();
            proof {
                assert(paths_in(nothing) =~= path_set(existing));
                reveal(Seq::filter);
                assert(left + within(existing, path_set(table@.files)) =~= left);
            }
            bury_absent(tombstones, &nothing, &table.files, source, Ghost(existing));
            proof {
                assert(indexed_files(*index) =~= indexed_files(*old(index)));
            }
        },
    }
}

/// Folds a manifest into the live files. `source` is the id of the compaction that
/// wrote it, where it is known.
pub(crate) fn update_persisted_files_with_snapshot(
    snapshot: &PersistedSnapshot,
    index: &mut FileIndex,
    tombstones: &mut TombstoneIndex,
    source: Option<&str>,
) -> (r: SnapshotFoldDelta)
    ensures
        ({
            let live = LiveFiles {
                files: indexed_files(*old(index)),
                tombstones: tombstones_in(*old(tombstones)),
            };
            let after = folded(live, snapshot@, opt_text(source));
            &&& indexed_files(*final(index)) == after.files
            &&& tombstones_in(*final(tombstones)) == after.tombstones
            &&& r.added.of(fold_joins(live, snapshot@))
            &&& r.removed.of(fold_leaves(live, snapshot@))
        }),
{
    let ghost start = indexed_files(*index);
    let ghost stones = tombstones_in(*tombstones);
    let ghost added = snapshot@.added;
    let ghost removed = snapshot@.removed;
    let mut gained = FileTotals::none();
    let mut i: usize = 0;
    proof {
        assert(added.take(0) =~= Seq::empty());
    }
    while i < snapshot.databases.len()
        invariant
            i <= snapshot.databases.len(),
            added == entries(snapshot.databases@),
            stones == tombstones_in(*tombstones),
            indexed_files(*index) == with_added(start, added.take(i as int), stones.dom()),
            gained.of(joining(start, added.take(i as int), stones.dom())),
        decreases snapshot.databases.len() - i,
    {
        proof {
            assert(added.take(i + 1).drop_last() =~= added.take(i as int));
            assert(added.take(i + 1).last() == snapshot.databases@[i as int]@);
        }
        add_table(
            index,
            tombstones,
            &snapshot.databases[i],
            &mut gained,
            Ghost(joining(start, added.take(i as int), stones.dom())),
        );
        i += 1;
    }
    proof {
        assert(added.take(i as int) =~= added);
        assert(removed.take(0) =~= Seq::empty());
    }
    let ghost grown = indexed_files(*index);
    let mut lost = FileTotals::none();
    let mut j: usize = 0;
    while j < snapshot.removed_files.len()
        invariant
            j <= snapshot.removed_files.len(),
            removed == entries(snapshot.removed_files@),
            indexed_files(*index) == with_removed(grown, removed.take(j as int)),
            tombstones_in(*tombstones) == with_buried(
                grown,
                stones,
                removed.take(j as int),
                opt_text(source),
            ),
            lost.of(leaving(grown, removed.take(j as int))),
        decreases snapshot.removed_files.len() - j,
    {
        proof {
            assert(removed.take(j + 1).drop_last() =~= removed.take(j as int));
            assert(removed.take(j + 1).last() == snapshot.removed_files@[j as int]@);
        }
        remove_table(
            index,
            tombstones,
            &snapshot.removed_files[j],
            source,
            &mut lost,
            Ghost(leaving(grown, removed.take(j as int))),
        );
        j += 1;
    }
    proof {
        assert(removed.take(j as int) =~= removed);
    }
    SnapshotFoldDelta { added: gained, removed: lost }
}

} // verus!

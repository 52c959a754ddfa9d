//! Checkpoints of the inventory.

use vstd::prelude::*;

use crate::collections::{FileMap, TombstoneMap};
use crate::files::{
    empty_manifest, entries, has_path, manifests, with_file, with_files, DbId, Manifest,
    ParquetFile, PersistedSnapshot, TableEntry, TableId,
};
use crate::fold::{
    accepted, files_of, folded, with_added, with_buried, with_removed, LiveFiles,
};
use crate::fold_laws::{
    all_unique, are_apart, buried_paths, has_path_push, is_listed, is_listed_last,
    removal_is_by_path, unique_paths, well_keyed,
};
use crate::inventory_poller::{after_compactions, after_tick, InventoryWatermarks};
use crate::persisted_files::{
    after_fold, after_folds, has_entry, lists_all, lists_compaction, lists_gen1, lists_table,
    needed, nothing_tracked, seeded_compaction, seeded_gen1, FileState, PersistedFiles,
};
use crate::persisted_files_laws::{checkpointed, folds_compose, is_gone, tombstones_round_trip};
use crate::shared_inventory::{
    checkpoint_snapshots, compaction_manifests, owned_text, Checkpoint, LoadedInventory,
};

verus! {

proof fn with_files_new_entry(list: Seq<TableEntry>, key: (DbId, TableId), files: Seq<ParquetFile>)
    requires
        files.len() > 0,
        forall|j: int| 0 <= j < list.len() ==> (#[trigger] list[j]).key != key,
    ensures
        with_files(list, key, files) == list.push(TableEntry { key, files }),
    decreases files.len(),
{
    let before = files.drop_last();
    if before.len() == 0 {
        assert(with_files(list, key, before) == list);
        with_file_absent_entry(list, key, files.last());
        assert(files =~= seq![files.last()]);
    } else {
        with_files_new_entry(list, key, before);
        let grown = list.push(TableEntry { key, files: before });
        with_file_last_entry(list, key, before, files.last());
        assert(before.push(files.last()) =~= files);
    }
}

proof fn with_file_absent_entry(list: Seq<TableEntry>, key: (DbId, TableId), file: ParquetFile)
    requires
        forall|j: int| 0 <= j < list.len() ==> (#[trigger] list[j]).key != key,
    ensures
        with_file(list, key, file) == list.push(TableEntry { key, files: seq![file] }),
    decreases list.len(),
{
    if list.len() > 0 {
        let rest = list.skip(1);
        assert(list[0].key != key);
        assert forall|j: int| 0 <= j < rest.len() implies (#[trigger] rest[j]).key != key by {
            assert(rest[j] == list[j + 1]);
        }
        with_file_absent_entry(rest, key, file);
    }
    assert(with_file(list, key, file) =~= list.push(TableEntry { key, files: seq![file] }));
}

proof fn with_file_last_entry(
    list: Seq<TableEntry>,
    key: (DbId, TableId),
    files: Seq<ParquetFile>,
    file: ParquetFile,
)
    requires
        forall|j: int| 0 <= j < list.len() ==> (#[trigger] list[j]).key != key,
    ensures
        with_file(list.push(TableEntry { key, files }), key, file) == list.push(
            TableEntry { key, files: files.push(file) },
        ),
    decreases list.len(),
{
    let grown = list.push(TableEntry { key, files });
    if list.len() > 0 {
        let rest = list.skip(1);
        assert(list[0].key != key);
        assert forall|j: int| 0 <= j < rest.len() implies (#[trigger] rest[j]).key != key by {
            assert(rest[j] == list[j + 1]);
        }
        with_file_last_entry(rest, key, files, file);
        assert(grown.skip(1) =~= rest.push(TableEntry { key, files }));
    } else {
        assert(grown.skip(1) =~= Seq::empty());
    }
    assert(with_file(grown, key, file) =~= list.push(
        TableEntry { key, files: files.push(file) },
    ));
}

/// A checkpoint of the tracked files: every live file as one manifest, the tombstones
/// that outlive a restart, and how far the inventory was folded.
pub fn inventory_checkpoint(
    files: &PersistedFiles,
    marks: &InventoryWatermarks,
    node_id: String,
    catalog_sequence_number: u64,
) -> (r: Checkpoint)
    ensures
        r.merged_snapshot@ == (Manifest {
            added: r.merged_snapshot@.added,
            ..empty_manifest(node_id@, 0, 0, catalog_sequence_number)
        }),
        lists_all(r.merged_snapshot@.added, files@.files),
        lists_gen1(r.tombstones@, files@.tombstones),
        lists_compaction(r.compaction_tombstones@, files@.tombstones),
        r.wal_high_water@ == marks.wal@,
        owned_text(r.compactions_high_water) == owned_text(marks.compaction),
{
    let tables = files.snapshot_all();
    let ghost list = entries(tables@);
    let mut merged = PersistedSnapshot::new(node_id, 0, 0, catalog_sequence_number);
    let ghost blank = merged@;
    let mut i: usize = 0;
    proof {
        assert(list.take(0) =~= Seq::empty());
    }
    while i < tables.len()
        invariant
            i <= tables.len(),
            list == entries(tables@),
            lists_all(list, files@.files),
            merged@ == (Manifest { added: list.take(i as int), ..blank }),
        decreases tables.len() - i,
    {
        let table = &tables[i];
        let ghost key = table@.key;
        let ghost start = list.take(i as int);
        proof {
            assert(list[i as int] == table@);
            assert(table.files@.take(0) =~= Seq::empty());
        }
        let mut j: usize = 0;
        while j < table.files.len()
            invariant
                j <= table.files.len(),
                key == (table.db_id, table.table_id),
                merged@ == (Manifest {
                    added: with_files(start, key, table.files@.take(j as int)),
                    ..blank
                }),
            decreases table.files.len() - j,
        {
            proof {
                assert(table.files@.take(j + 1).drop_last() =~= table.files@.take(j as int));
            }
            merged.add_parquet_file(table.db_id, table.table_id, table.files[j].duplicate());
            j += 1;
        }
        proof {
            assert(table.files@.take(j as int) =~= table.files@);
            assert(lists_table(list[i as int], files@.files));
            assert forall|k: int| 0 <= k < start.len() implies (#[trigger] start[k]).key != key by {
                assert(list[k].key != list[i as int].key);
            }
            with_files_new_entry(start, key, table.files@);
            assert(list.take(i + 1) =~= start.push(table@));
        }
        i += 1;
    }
    proof {
        assert(list.take(i as int) =~= list);
    }
    let (tombstones, compaction_tombstones) = files.tombstones_for_checkpoint();
    let compactions_high_water: Option<String> = match &marks.compaction {
        Some(id) => Some(id.clone()),
        None => None,
    };
    Checkpoint {
        wal_high_water: marks.wal.duplicate(),
        compactions_high_water,
        merged_snapshot: merged,
        tombstones,
        compaction_tombstones,
    }
}

proof fn accepted_all(new: Seq<ParquetFile>, suppressed: Set<Seq<char>>)
    requires
        unique_paths(new),
        forall|p: Seq<char>| #[trigger] has_path(new, p) ==> !suppressed.contains(p),
    ensures
        accepted(Seq::empty(), new, suppressed) == new,
    decreases new.len(),
{
    let none = Seq::<ParquetFile>::empty();
    if new.len() > 0 {
        let rest = new.drop_last();
        let f = new.last();
        assert forall|i: int, j: int| 0 <= i < j < rest.len() implies rest[i].path@
            != rest[j].path@ by {
            assert(rest[i] == new[i] && rest[j] == new[j]);
        }
        assert(rest.push(f) =~= new);
        assert forall|p: Seq<char>| #[trigger] has_path(rest, p) implies !suppressed.contains(p) by {
            has_path_push(rest, f, p);
        }
        has_path_push(rest, f, f.path@);
        accepted_all(rest, suppressed);
        assert(none + rest =~= rest);
        assert(!has_path(rest, f.path@)) by {
            if has_path(rest, f.path@) {
                let i = choose|i: int| 0 <= i < rest.len() && (#[trigger] rest[i]).path@ == f.path@;
                assert(new[i].path@ == new[new.len() - 1].path@);
            }
        }
    } else {
        assert(new =~= none);
    }
}

proof fn restored_prefix(
    files: FileMap,
    list: Seq<TableEntry>,
    suppressed: Set<Seq<char>>,
    key: (DbId, TableId),
)
    requires
        all_unique(files),
        are_apart(files, suppressed),
        forall|i: int| 0 <= i < list.len() ==> lists_table(#[trigger] list[i], files),
        forall|i: int, j: int| 0 <= i < j < list.len() ==> list[i].key != list[j].key,
    ensures
        files_of(with_added(Map::empty(), list, suppressed), key) == if has_entry(list, key) {
            files[key]
        } else {
            Seq::<ParquetFile>::empty()
        },
    decreases list.len(),
{
    if list.len() > 0 {
        let rest = list.drop_last();
        let entry = list.last();
        assert forall|i: int| 0 <= i < rest.len() implies lists_table(#[trigger] rest[i], files) by {
            assert(rest[i] == list[i]);
        }
        assert forall|i: int, j: int| 0 <= i < j < rest.len() implies rest[i].key != rest[j].key by {
            assert(rest[i] == list[i] && rest[j] == list[j]);
        }
        restored_prefix(files, rest, suppressed, key);
        restored_prefix(files, rest, suppressed, entry.key);
        assert(lists_table(list[list.len() - 1], files));
        assert(!has_entry(rest, entry.key)) by {
            if has_entry(rest, entry.key) {
                let i = choose|i: int| 0 <= i < rest.len() && (#[trigger] rest[i]).key == entry.key;
                assert(list[i].key == list[list.len() - 1].key);
            }
        }
        assert forall|p: Seq<char>| #[trigger] has_path(entry.files, p) implies
            !suppressed.contains(p) by {
            assert(has_path(files_of(files, entry.key), p));
        }
        accepted_all(entry.files, suppressed);
        let none = Seq::<ParquetFile>::empty();
        assert(none + entry.files =~= entry.files);
        if has_entry(rest, key) {
            let i = choose|i: int| 0 <= i < rest.len() && (#[trigger] rest[i]).key == key;
            assert(list[i].key == key);
        }
        if key == entry.key {
            assert(list[list.len() - 1].key == key);
        } else if has_entry(list, key) {
            let i = choose|i: int| 0 <= i < list.len() && (#[trigger] list[i]).key == key;
            assert(rest[i].key == key);
        }
    }
}

/// A checkpoint reproduces what it was made of: folding its manifest into nothing but its
/// tombstones gives each table the files that it had.
pub proof fn checkpoint_reproduces_files(
    live: LiveFiles,
    manifest: Manifest,
    source: Option<Seq<char>>,
    key: (DbId, TableId),
)
    requires
        all_unique(live.files),
        are_apart(live.files, live.tombstones.dom()),
        lists_all(manifest.added, live.files),
        manifest.removed.len() == 0,
    ensures
        files_of(
            folded(LiveFiles { files: Map::empty(), ..live }, manifest, source).files,
            key,
        ) == files_of(live.files, key),
        folded(LiveFiles { files: Map::empty(), ..live }, manifest, source).tombstones
            == live.tombstones,
{
    let files = live.files;
    restored_prefix(files, manifest.added, live.tombstones.dom(), key);
    if has_entry(manifest.added, key) {
        let i = choose|i: int|
            0 <= i < manifest.added.len() && (#[trigger] manifest.added[i]).key == key;
        assert(lists_table(manifest.added[i], files));
    } else if files.contains_key(key) {
        assert(files[key].len() == 0);
        assert(files[key] =~= Seq::empty());
    }
}

/// What is done to the tracked files as the inventory is followed.
pub enum InventoryOp {
    /// A manifest is folded in, that of a compaction under its id.
    Fold { manifest: Manifest, source: Option<Seq<char>> },
    /// The tombstones that these marks have passed are dropped.
    Collect { wal: Map<Seq<char>, u64>, compaction: Option<Seq<char>> },
}

/// The state once this is done.
pub open spec fn after_op(t: FileState, op: InventoryOp) -> FileState {
    match op {
        InventoryOp::Fold { manifest, source } => after_fold(t, manifest, source),
        InventoryOp::Collect { wal, compaction } => FileState {
            tombstones: needed(t.tombstones, wal, compaction),
            ..t
        },
    }
}

/// The state once these are done, in order.
pub open spec fn after_ops(t: FileState, ops: Seq<InventoryOp>) -> FileState
    decreases ops.len(),
{
    if ops.len() == 0 {
        t
    } else {
        after_op(after_ops(t, ops.drop_last()), ops.last())
    }
}

/// What a tick of the poller does: it folds the manifests of writers, then those of
/// compactions under their ids, and drops the tombstones that the cursors have passed.
pub open spec fn tick_ops(
    new_wal: Seq<PersistedSnapshot>,
    new_compactions: Seq<(String, PersistedSnapshot)>,
    wal_cursors: Map<Seq<char>, u64>,
    compaction_cursor: Option<Seq<char>>,
) -> Seq<InventoryOp> {
    wal_ops(new_wal) + compaction_ops(new_compactions) + seq![
        InventoryOp::Collect { wal: wal_cursors, compaction: compaction_cursor },
    ]
}

/// The folds of the manifests of writers.
pub open spec fn wal_ops(list: Seq<PersistedSnapshot>) -> Seq<InventoryOp> {
    Seq::new(list.len(), |i: int| InventoryOp::Fold { manifest: list[i]@, source: None })
}

/// The folds of the manifests of compactions.
pub open spec fn compaction_ops(list: Seq<(String, PersistedSnapshot)>) -> Seq<InventoryOp> {
    Seq::new(
        list.len(),
        |i: int| InventoryOp::Fold { manifest: list[i].1@, source: Some(list[i].0@) },
    )
}

proof fn ops_compose(t: FileState, first: Seq<InventoryOp>, second: Seq<InventoryOp>)
    ensures
        after_ops(t, first + second) == after_ops(after_ops(t, first), second),
    decreases second.len(),
{
    if second.len() == 0 {
        assert(first + second =~= first);
    } else {
        ops_compose(t, first, second.drop_last());
        assert((first + second).drop_last() =~= first + second.drop_last());
    }
}

proof fn wal_ops_fold(t: FileState, list: Seq<PersistedSnapshot>)
    ensures
        after_ops(t, wal_ops(list)) == after_folds(t, manifests(list)),
    decreases list.len(),
{
    if list.len() > 0 {
        wal_ops_fold(t, list.drop_last());
        assert(wal_ops(list).drop_last() =~= wal_ops(list.drop_last()));
        assert(manifests(list).drop_last() =~= manifests(list.drop_last()));
    }
}

proof fn compaction_ops_fold(t: FileState, list: Seq<(String, PersistedSnapshot)>)
    ensures
        after_ops(t, compaction_ops(list)) == after_compactions(t, list),
    decreases list.len(),
{
    if list.len() > 0 {
        compaction_ops_fold(t, list.drop_last());
        assert(compaction_ops(list).drop_last() =~= compaction_ops(list.drop_last()));
    }
}

/// A tick of the poller does just that.
pub proof fn tick_is_its_ops(
    t: FileState,
    new_wal: Seq<PersistedSnapshot>,
    new_compactions: Seq<(String, PersistedSnapshot)>,
    wal_cursors: Map<Seq<char>, u64>,
    compaction_cursor: Option<Seq<char>>,
)
    ensures
        after_tick(t, new_wal, new_compactions, wal_cursors, compaction_cursor) == after_ops(
            t,
            tick_ops(new_wal, new_compactions, wal_cursors, compaction_cursor),
        ),
{
    let collect = seq![InventoryOp::Collect { wal: wal_cursors, compaction: compaction_cursor }];
    ops_compose(t, wal_ops(new_wal), compaction_ops(new_compactions));
    ops_compose(t, wal_ops(new_wal) + compaction_ops(new_compactions), collect);
    wal_ops_fold(t, new_wal);
    compaction_ops_fold(after_folds(t, manifests(new_wal)), new_compactions);
    let grown = after_compactions(after_folds(t, manifests(new_wal)), new_compactions);
    assert(collect.drop_last() =~= Seq::empty());
    assert(after_ops(grown, collect.drop_last()) == grown);
}

/// None of these adds a path that is known to be gone.
pub open spec fn adds_nothing_gone(ops: Seq<InventoryOp>, gone: Set<Seq<char>>) -> bool {
    forall|n: int, k: (DbId, TableId), p: Seq<char>|
        #![trigger ops[n], is_listed(op_adds(ops[n]), k, p)]
        0 <= n < ops.len() && is_listed(op_adds(ops[n]), k, p) ==> !gone.contains(p)
}

/// What is added.
pub open spec fn op_adds(op: InventoryOp) -> Seq<TableEntry> {
    match op {
        InventoryOp::Fold { manifest, .. } => manifest.added,
        InventoryOp::Collect { .. } => Seq::empty(),
    }
}

/// The paths known to be gone from object storage.
pub open spec fn gone_paths(tombstones: TombstoneMap) -> Set<Seq<char>> {
    Set::new(|p: Seq<char>| is_gone(tombstones, p))
}

/// A node that starts from a checkpoint, with the tombstones that it kept put back, and
/// follows the inventory from there, through manifests of writers and of compactions and the
/// dropping of tombstones, ends with the same files as one that never stopped. Paths known to
/// be gone are not in a checkpoint, so the law leaves out what adds one of them again.
pub proof fn checkpoint_resumes(
    t: FileState,
    manifest: Manifest,
    later: Seq<InventoryOp>,
    key: (DbId, TableId),
)
    requires
        all_unique(t.files),
        are_apart(t.files, t.tombstones.dom()),
        adds_nothing_gone(later, gone_paths(t.tombstones)),
        lists_all(manifest.added, t.files),
        manifest.removed.len() == 0,
    ensures
        ({
            let seeded = FileState { tombstones: checkpointed(t.tombstones), ..nothing_tracked() };
            let resumed = after_ops(after_fold(seeded, manifest, None), later);
            files_of(resumed.files, key) == files_of(after_ops(t, later).files, key)
        }),
{
    let kept = checkpointed(t.tombstones);
    let gone = gone_paths(t.tombstones);
    let seeded = FileState { tombstones: kept, ..nothing_tracked() };
    let restored = after_fold(seeded, manifest, None);
    let live = LiveFiles { files: t.files, tombstones: kept };
    assert(seeded.live() == (LiveFiles { files: Map::empty(), ..live }));
    assert(are_apart(t.files, kept.dom())) by {
        assert forall|k: (DbId, TableId), p: Seq<char>|
            #![trigger has_path(files_of(t.files, k), p), kept.dom().contains(p)]
            has_path(files_of(t.files, k), p) implies !kept.dom().contains(p) by {
            assert(!t.tombstones.dom().contains(p));
        }
    }
    assert forall|k: (DbId, TableId)| files_of(restored.files, k) == #[trigger] files_of(
        t.files,
        k,
    ) by {
        checkpoint_reproduces_files(live, manifest, None, k);
    }
    checkpoint_reproduces_files(live, manifest, None, key);
    assert(stones_agree(restored.tombstones, t.tombstones, gone)) by {
        assert forall|p: Seq<char>| #[trigger]
            stones_agree_at(restored.tombstones, t.tombstones, gone, p) by {
            assert(gone.contains(p) == is_gone(t.tombstones, p));
        }
    }
    alike_states_go_on_alike(restored, t, gone, later);
}

/// The tracked files of a node that starts from what it loaded: the tombstones of the
/// checkpoint are in place before the checkpoint and what is newer are folded.
pub open spec fn restored(loaded: LoadedInventory) -> FileState {
    let seeded = FileState {
        tombstones: seeded_compaction(
            seeded_gen1(nothing_tracked().tombstones, loaded.tombstones@),
            loaded.compaction_tombstones@,
        ),
        ..nothing_tracked()
    };
    after_folds(
        seeded,
        manifests(
            checkpoint_snapshots(loaded.checkpoint) + loaded.wal_snapshots@ + loaded.compactions@,
        ),
    )
}

/// Builds the tracked files from what was loaded.
pub fn restore(loaded: LoadedInventory) -> (r: PersistedFiles)
    ensures
        r@ == restored(loaded),
{
    let mut files = PersistedFiles::new();
    files.seed_tombstones(&loaded.tombstones, &loaded.compaction_tombstones);
    let snapshots = loaded.flatten();
    files.fold_all(&snapshots);
    files
}

/// A node that loads a checkpoint and what is newer, and builds its files from that, has the
/// files of a node that folded the same on top of what the checkpoint was made from. Paths
/// known to be gone are not in a checkpoint, so the law leaves out what adds one of them again.
pub proof fn restart_resumes(
    t: FileState,
    cp: Checkpoint,
    loaded: LoadedInventory,
    wal: Seq<PersistedSnapshot>,
    compactions: Seq<(String, PersistedSnapshot)>,
    key: (DbId, TableId),
)
    requires
        all_unique(t.files),
        are_apart(t.files, t.tombstones.dom()),
        well_keyed(t.tombstones),
        lists_all(cp.merged_snapshot@.added, t.files),
        cp.merged_snapshot@.removed.len() == 0,
        lists_gen1(cp.tombstones@, t.tombstones),
        lists_compaction(cp.compaction_tombstones@, t.tombstones),
        loaded.is_made_of(Some(cp), wal, compactions),
        adds_nothing_gone(wal_ops(wal + loaded.compactions@), gone_paths(t.tombstones)),
    ensures
        files_of(restored(loaded).files, key) == files_of(
            after_folds(t, manifests(wal) + compaction_manifests(compactions)).files,
            key,
        ),
{
    let newer = wal + loaded.compactions@;
    let first = seq![cp.merged_snapshot];
    let seeded = FileState { tombstones: checkpointed(t.tombstones), ..nothing_tracked() };
    tombstones_round_trip(t.tombstones, cp.tombstones@, cp.compaction_tombstones@);
    checkpoint_resumes(t, cp.merged_snapshot@, wal_ops(newer), key);
    wal_ops_fold(t, newer);
    assert(manifests(newer) =~= manifests(wal) + compaction_manifests(compactions));
    let all = checkpoint_snapshots(Some(cp)) + wal + loaded.compactions@;
    assert(manifests(all) =~= manifests(first) + manifests(newer));
    folds_compose(seeded, manifests(first), manifests(newer));
    assert(manifests(first).drop_last() =~= Seq::empty());
    assert(after_folds(seeded, manifests(first).drop_last()) == seeded);
    wal_ops_fold(after_fold(seeded, cp.merged_snapshot@, None), newer);
    assert(after_folds(seeded, manifests(first)) == after_fold(seeded, cp.merged_snapshot@, None));
}

/// The tombstones of a path are the same in both, or it is known to be gone in the one and
/// unknown to the other.
pub open spec fn stones_agree_at(
    a: TombstoneMap,
    b: TombstoneMap,
    gone: Set<Seq<char>>,
    p: Seq<char>,
) -> bool {
    ||| a.contains_key(p) == b.contains_key(p) && (a.contains_key(p) ==> a[p] == b[p])
    ||| gone.contains(p) && is_gone(b, p) && !a.contains_key(p)
}

/// The tombstones are the same in both, but for paths known to be gone.
pub open spec fn stones_agree(a: TombstoneMap, b: TombstoneMap, gone: Set<Seq<char>>) -> bool {
    forall|p: Seq<char>| #[trigger] stones_agree_at(a, b, gone, p)
}

/// Two states whose tables hold the same files, with the same tombstones but for paths known
/// to be gone, go on alike, as long as none of those is added again.
pub proof fn alike_states_go_on_alike(
    a: FileState,
    b: FileState,
    gone: Set<Seq<char>>,
    ops: Seq<InventoryOp>,
)
    requires
        same_files(a.files, b.files),
        stones_agree(a.tombstones, b.tombstones, gone),
        adds_nothing_gone(ops, gone),
    ensures
        same_files(after_ops(a, ops).files, after_ops(b, ops).files),
        stones_agree(after_ops(a, ops).tombstones, after_ops(b, ops).tombstones, gone),
    decreases ops.len(),
{
    if ops.len() > 0 {
        let rest = ops.drop_last();
        assert(adds_nothing_gone(rest, gone)) by {
            assert forall|n: int, k: (DbId, TableId), p: Seq<char>|
                #![trigger rest[n], is_listed(op_adds(rest[n]), k, p)]
                0 <= n < rest.len() && is_listed(op_adds(rest[n]), k, p) implies !gone.contains(
                p,
            ) by {
                assert(rest[n] == ops[n]);
                assert(is_listed(op_adds(ops[n]), k, p));
            }
        }
        alike_states_go_on_alike(a, b, gone, rest);
        let x = after_ops(a, rest);
        let y = after_ops(b, rest);
        match ops.last() {
            InventoryOp::Fold { manifest, source } => {
                assert forall|k: (DbId, TableId), p: Seq<char>| #[trigger]
                    is_listed(manifest.added, k, p) implies x.tombstones.dom().contains(p)
                    == y.tombstones.dom().contains(p) by {
                    assert(is_listed(op_adds(ops[ops.len() - 1]), k, p));
                    assert(stones_agree_at(x.tombstones, y.tombstones, gone, p));
                }
                let xs = x.tombstones.dom();
                let ys = y.tombstones.dom();
                same_files_add_alike(x.files, y.files, manifest.added, xs, ys);
                let xg = with_added(x.files, manifest.added, xs);
                let yg = with_added(y.files, manifest.added, ys);
                same_files_remove_alike(
                    xg,
                    yg,
                    x.tombstones,
                    y.tombstones,
                    gone,
                    manifest.removed,
                    source,
                );
            },
            InventoryOp::Collect { wal, compaction } => {
                let xn = needed(x.tombstones, wal, compaction);
                let yn = needed(y.tombstones, wal, compaction);
                assert forall|p: Seq<char>| #[trigger] stones_agree_at(xn, yn, gone, p) by {
                    assert(stones_agree_at(x.tombstones, y.tombstones, gone, p));
                }
            },
        }
    }
}

/// Every table holds the same files.
pub open spec fn same_files(a: FileMap, b: FileMap) -> bool {
    forall|k: (DbId, TableId)| files_of(a, k) == #[trigger] files_of(b, k)
}

proof fn accepted_alike(
    existing: Seq<ParquetFile>,
    new: Seq<ParquetFile>,
    xs: Set<Seq<char>>,
    ys: Set<Seq<char>>,
)
    requires
        forall|p: Seq<char>| #[trigger] has_path(new, p) ==> xs.contains(p) == ys.contains(p),
    ensures
        accepted(existing, new, xs) == accepted(existing, new, ys),
    decreases new.len(),
{
    if new.len() > 0 {
        let rest = new.drop_last();
        assert(rest.push(new.last()) =~= new);
        assert forall|p: Seq<char>| #[trigger] has_path(rest, p) implies xs.contains(p)
            == ys.contains(p) by {
            has_path_push(rest, new.last(), p);
        }
        accepted_alike(existing, rest, xs, ys);
        has_path_push(rest, new.last(), new.last().path@);
    }
}

proof fn same_files_add_alike(
    a: FileMap,
    b: FileMap,
    added: Seq<TableEntry>,
    xs: Set<Seq<char>>,
    ys: Set<Seq<char>>,
)
    requires
        same_files(a, b),
        forall|k: (DbId, TableId), p: Seq<char>| #[trigger]
            is_listed(added, k, p) ==> xs.contains(p) == ys.contains(p),
    ensures
        same_files(with_added(a, added, xs), with_added(b, added, ys)),
    decreases added.len(),
{
    if added.len() > 0 {
        let rest = added.drop_last();
        let entry = added.last();
        assert forall|k: (DbId, TableId), p: Seq<char>| #[trigger]
            is_listed(rest, k, p) implies xs.contains(p) == ys.contains(p) by {
            is_listed_last(added, k, p);
        }
        same_files_add_alike(a, b, rest, xs, ys);
        let x = with_added(a, rest, xs);
        let y = with_added(b, rest, ys);
        assert(files_of(x, entry.key) == files_of(y, entry.key));
        assert forall|p: Seq<char>| #[trigger] has_path(entry.files, p) implies xs.contains(p)
            == ys.contains(p) by {
            is_listed_last(added, entry.key, p);
        }
        accepted_alike(files_of(x, entry.key), entry.files, xs, ys);
        let after_x = with_added(a, added, xs);
        let after_y = with_added(b, added, ys);
        assert forall|k: (DbId, TableId)| files_of(after_x, k) == #[trigger] files_of(
            after_y,
            k,
        ) by {
            assert(files_of(x, k) == files_of(y, k));
        }
    }
}

proof fn same_files_remove_alike(
    a: FileMap,
    b: FileMap,
    xt: TombstoneMap,
    yt: TombstoneMap,
    gone: Set<Seq<char>>,
    removed: Seq<TableEntry>,
    source: Option<Seq<char>>,
)
    requires
        same_files(a, b),
        stones_agree(xt, yt, gone),
    ensures
        same_files(with_removed(a, removed), with_removed(b, removed)),
        stones_agree(
            with_buried(a, xt, removed, source),
            with_buried(b, yt, removed, source),
            gone,
        ),
    decreases removed.len(),
{
    assert forall|k: (DbId, TableId)| files_of(with_removed(a, removed), k) == #[trigger] files_of(
        with_removed(b, removed),
        k,
    ) by {
        removal_is_by_path(a, removed, k);
        removal_is_by_path(b, removed, k);
        assert(files_of(a, k) == files_of(b, k));
    }
    if removed.len() > 0 {
        let rest = removed.drop_last();
        let entry = removed.last();
        same_files_remove_alike(a, b, xt, yt, gone, rest, source);
        let existing = files_of(with_removed(a, rest), entry.key);
        assert(existing == files_of(with_removed(b, rest), entry.key));
        let x = with_buried(a, xt, rest, source);
        let y = with_buried(b, yt, rest, source);
        let after_x = with_buried(a, xt, removed, source);
        let after_y = with_buried(b, yt, removed, source);
        assert forall|p: Seq<char>| #[trigger] stones_agree_at(after_x, after_y, gone, p) by {
            assert(stones_agree_at(x, y, gone, p));
            buried_paths(x, existing, entry.files, source, p);
            buried_paths(y, existing, entry.files, source, p);
        }
    }
}

/// A node that loads no checkpoint has the files that folding all manifests gives, those of
/// writers before those of compactions.
pub proof fn start_without_checkpoint(
    loaded: LoadedInventory,
    wal: Seq<PersistedSnapshot>,
    compactions: Seq<(String, PersistedSnapshot)>,
)
    requires
        loaded.is_made_of(None, wal, compactions),
    ensures
        restored(loaded) == after_folds(
            after_folds(nothing_tracked(), manifests(wal)),
            compaction_manifests(compactions),
        ),
{
    let all = checkpoint_snapshots(None) + wal + loaded.compactions@;
    assert(manifests(all) =~= manifests(wal) + compaction_manifests(compactions));
    folds_compose(nothing_tracked(), manifests(wal), compaction_manifests(compactions));
    assert(loaded.tombstones@ =~= Seq::empty());
    assert(loaded.compaction_tombstones@ =~= Seq::empty());
}

} // verus!

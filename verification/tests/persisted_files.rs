use influxdb3_write::files::{
    ChunkFilter, ParquetFile, PersistedSnapshot, PersistedSnapshotCheckpoint, TableFiles,
};
use influxdb3_write::persisted_files::{
    PersistedFiles, RetentionCutoff, MAX_EVICTION_TOMBSTONES,
};
use influxdb3_write::tombstone::parse_gen1_path;
use influxdb3_write::watermarks::NodeMarks;

fn file(path: &str) -> ParquetFile {
    timed(path, 0, 0)
}

fn timed(path: &str, min_time: i64, max_time: i64) -> ParquetFile {
    ParquetFile {
        id: 0,
        path: path.to_string(),
        size_bytes: 10,
        row_count: 2,
        chunk_time: 0,
        min_time,
        max_time,
    }
}

fn snapshot(adds: &[&str], removes: &[&str]) -> PersistedSnapshot {
    let mut s = PersistedSnapshot::new("w".to_string(), 1, 1, 0);
    for path in adds {
        s.add_parquet_file(1, 0, file(path));
    }
    if !removes.is_empty() {
        s.removed_files = vec![TableFiles {
            db_id: 1,
            table_id: 0,
            files: removes.iter().map(|p| file(p)).collect(),
        }];
    }
    s
}

fn paths(files: &PersistedFiles) -> Vec<String> {
    files.get_files(1, 0).into_iter().map(|f| f.path).collect()
}

const GEN1: &str = "w/dbs/1/0/d/h/0000000007.parquet";
const GEN2: &str = "c/dbs/x-1/y-0/gen2/d/h/019ec5ca.parquet";

#[test]
fn gen1_paths_name_writer_and_sequence() {
    assert_eq!(parse_gen1_path(GEN1), Some(("w".to_string(), 7)));
    assert_eq!(
        parse_gen1_path("w/dbs/1/0/d/h/0000000007-2.parquet"),
        Some(("w".to_string(), 7))
    );
    assert_eq!(parse_gen1_path(GEN2), None);
    let named = |name: &str| parse_gen1_path(&format!("w/dbs/1/0/d/h/{name}"));
    assert_eq!(named("12345678901.parquet"), Some(("w".to_string(), 12_345_678_901)));
    assert_eq!(named("0000000007-2-3.parquet"), None);
    assert_eq!(named("0000000007-.parquet"), None);
    assert_eq!(named("+000000007.parquet"), None);
    assert_eq!(named("0000000007.json"), None);
    assert_eq!(named("18446744073709551616.parquet"), None);
    // Not padded to ten digits.
    assert_eq!(named("7.parquet"), None);
    assert_eq!(named("00000000007.parquet"), None);
    // Another layout.
    assert_eq!(parse_gen1_path("w/7.parquet"), None);
    assert_eq!(parse_gen1_path("w/0000000007.parquet"), None);
    assert_eq!(parse_gen1_path("w/db/1/0/d/h/0000000007.parquet"), None);
    assert_eq!(parse_gen1_path("/dbs/1/0/d/h/0000000007.parquet"), None);
    assert_eq!(parse_gen1_path("w/dbs/1/0/d//0000000007.parquet"), None);
    assert_eq!(parse_gen1_path("w/dbs/1/0/d/h/i/0000000007.parquet"), None);
}

#[test]
fn adds_are_deduplicated_by_path() {
    let mut files = PersistedFiles::new();
    files.add_persisted_snapshot_files(&snapshot(&["a", "b", "a"], &[]));
    files.add_persisted_snapshot_files(&snapshot(&["b", "c"], &[]));
    assert_eq!(paths(&files), vec!["a", "b", "c"]);
    assert_eq!(files.get_metrics(), (3, 30, 6));
}

#[test]
fn folding_the_same_adds_again_changes_nothing() {
    let mut files = PersistedFiles::new();
    files.add_persisted_snapshot_files(&snapshot(&["a", "b"], &[]));
    let before = (paths(&files), files.get_metrics());
    files.add_persisted_snapshot_files(&snapshot(&["a", "b"], &[]));
    assert_eq!((paths(&files), files.get_metrics()), before);
}

#[test]
fn removals_are_by_path_and_counted_once() {
    let mut files = PersistedFiles::new();
    files.add_persisted_snapshot_files(&snapshot(&["a", "b"], &[]));
    files.add_persisted_snapshot_files(&snapshot(&["c"], &["a", "zz"]));
    assert_eq!(paths(&files), vec!["b", "c"]);
    assert_eq!(files.get_metrics(), (2, 20, 4));
    // "zz" is no writer's path and no compaction is known: no tombstone.
    assert_eq!(files.tombstone_count(), 0);
}

#[test]
fn early_removal_wins_over_late_add() {
    let mut files = PersistedFiles::new();
    files.add_persisted_snapshot_files(&snapshot(&[], &[GEN1]));
    assert_eq!(files.tombstone_count(), 1);
    files.add_persisted_snapshot_files(&snapshot(&[GEN1, "b"], &[]));
    assert_eq!(paths(&files), vec!["b"]);
    assert_eq!(files.get_metrics(), (1, 10, 2));
}

#[test]
fn both_orders_of_add_and_removal_agree() {
    let adds = snapshot(&[GEN1, GEN2, "b"], &[]);
    let removes = snapshot(&[], &[GEN1, GEN2]);
    let mut one = PersistedFiles::new();
    one.add_persisted_snapshot_files(&adds);
    one.add_persisted_compaction_files(&removes, "019f");
    let mut two = PersistedFiles::new();
    two.add_persisted_compaction_files(&removes, "019f");
    two.add_persisted_snapshot_files(&adds);
    assert_eq!(paths(&one), vec!["b"]);
    assert_eq!(paths(&two), paths(&one));
    assert_eq!(two.get_metrics().0, 1);
    assert_eq!((one.tombstone_count(), two.tombstone_count()), (0, 2));
}

#[test]
fn manifests_may_arrive_in_any_order() {
    let next = "c/dbs/x-1/y-0/gen3/d/h/019ec5cb.parquet";
    // A writer's file, its compaction, and the compaction of that.
    let arrivals = [
        (snapshot(&[GEN1, "b"], &[]), None),
        (snapshot(&[GEN2], &[GEN1]), Some("019f")),
        (snapshot(&[next], &[GEN2]), Some("01a0")),
    ];
    for order in [[0, 1, 2], [0, 2, 1], [1, 0, 2], [1, 2, 0], [2, 0, 1], [2, 1, 0]] {
        let mut files = PersistedFiles::new();
        for n in order {
            match &arrivals[n] {
                (manifest, Some(id)) => files.add_persisted_compaction_files(manifest, id),
                (manifest, None) => files.add_persisted_snapshot_files(manifest),
            }
        }
        let mut live = paths(&files);
        live.sort();
        assert_eq!(live, vec!["b", next], "{order:?}");
        assert_eq!(files.get_metrics(), (2, 20, 4), "{order:?}");
    }
}

#[test]
fn building_from_snapshots_folds_them_one_by_one() {
    let all = vec![
        snapshot(&[], &[GEN1]),
        snapshot(&[GEN1, GEN2, "b"], &[]),
        snapshot(&["c"], &["b"]),
    ];
    let built = PersistedFiles::new_from_persisted_snapshots(&all);
    let mut folded = PersistedFiles::new();
    for s in &all {
        folded.add_persisted_snapshot_files(s);
    }
    assert_eq!(paths(&built), vec![GEN2, "c"]);
    assert_eq!(paths(&folded), paths(&built));
    assert_eq!(folded.get_metrics(), built.get_metrics());
    assert_eq!(folded.tombstones_for_checkpoint(), built.tombstones_for_checkpoint());
}

#[test]
fn tombstones_are_dropped_once_passed() {
    let mut files = PersistedFiles::new();
    files.add_persisted_compaction_files(&snapshot(&[], &[GEN1, GEN2]), "019f");
    let mut marks = NodeMarks::new();
    files.gc_tombstones(&marks, None);
    assert_eq!(files.tombstone_count(), 2);
    marks.set("w", 6);
    files.gc_tombstones(&marks, Some("019e"));
    assert_eq!(files.tombstone_count(), 2);
    marks.set("w", 7);
    files.gc_tombstones(&marks, Some("019e"));
    assert_eq!(files.tombstone_count(), 1);
    files.gc_tombstones(&marks, Some("019f"));
    assert_eq!(files.tombstone_count(), 0);
}

#[test]
fn tombstones_round_trip_through_a_checkpoint() {
    let mut files = PersistedFiles::new();
    files.add_persisted_compaction_files(&snapshot(&[], &[GEN1, GEN2]), "019f");
    files.tombstone_evicted_paths(&vec!["gone".to_string()]);
    assert_eq!(files.tombstone_count(), 3);
    let (gen1, compaction) = files.tombstones_for_checkpoint();
    assert_eq!(gen1, vec![(GEN1.to_string(), 7)]);
    assert_eq!(compaction, vec![(GEN2.to_string(), "019f".to_string())]);

    let mut restarted = PersistedFiles::new();
    restarted.seed_tombstones(&gen1, &compaction);
    assert_eq!(restarted.tombstone_count(), 2);
    restarted.add_persisted_snapshot_files(&snapshot(&[GEN1, GEN2, "gone"], &[]));
    assert_eq!(paths(&restarted), vec!["gone"]);
    // A path without a writer is passed over.
    restarted.seed_tombstones(&vec![("/x".to_string(), 1)], &vec![]);
    assert_eq!(restarted.tombstone_count(), 2);
}

#[test]
fn evicted_paths_stay_out_and_are_bounded() {
    let mut files = PersistedFiles::new();
    files.add_persisted_snapshot_files(&snapshot(&[], &[GEN1]));
    files.tombstone_evicted_paths(&vec![GEN1.to_string(), "x".to_string(), "x".to_string()]);
    assert_eq!(files.tombstone_count(), 2);
    files.add_persisted_snapshot_files(&snapshot(&["x"], &[]));
    assert!(paths(&files).is_empty());
    // No high-water mark drops it.
    let mut marks = NodeMarks::new();
    marks.set("w", u64::MAX);
    files.gc_tombstones(&marks, Some("zzz"));
    assert_eq!(files.tombstone_count(), 1);

    let many: Vec<String> = (0..MAX_EVICTION_TOMBSTONES).map(|i| format!("p{i}")).collect();
    files.tombstone_evicted_paths(&many);
    assert_eq!(files.tombstone_count(), MAX_EVICTION_TOMBSTONES);
    // "x" was the oldest, and is forgotten.
    files.add_persisted_snapshot_files(&snapshot(&["x", "p0"], &[]));
    assert_eq!(paths(&files), vec!["x"]);
}

#[test]
fn single_files() {
    let mut files = PersistedFiles::new();
    files.add_persisted_file(1, 0, &file("a"));
    files.add_persisted_file(1, 0, &file("a"));
    assert_eq!(paths(&files), vec!["a"]);
    // A duplicate is skipped.
    assert_eq!(files.get_metrics(), (1, 10, 2));
    // The same path with other contents is another file here.
    files.add_persisted_file(1, 0, &timed("a", 5, 6));
    assert_eq!(paths(&files), vec!["a", "a"]);
    assert_eq!(files.get_metrics(), (2, 20, 4));

    files.remove_persisted_files(1, 0, &vec![file("a"), file("zz")]);
    assert!(paths(&files).is_empty());
    assert_eq!(files.get_metrics(), (0, 0, 0));
    // Once more, and from a table that is not there: nothing changes.
    files.remove_persisted_files(1, 0, &vec![file("a"), file("zz")]);
    files.remove_persisted_files(9, 9, &vec![file("a")]);
    assert_eq!(files.get_metrics(), (0, 0, 0));
}

#[test]
fn files_come_newest_first_and_filtered() {
    let mut files = PersistedFiles::new();
    for (p, lo, hi) in [("a", 10, 20), ("b", 30, 40), ("c", 10, 50), ("d", 0, 5)] {
        files.add_persisted_file(1, 0, &timed(p, lo, hi));
    }
    assert_eq!(paths(&files), vec!["b", "a", "c", "d"]);
    let names = |lower, upper| -> Vec<String> {
        let filter = ChunkFilter { time_lower_bound_ns: lower, time_upper_bound_ns: upper };
        files.get_files_filtered(1, 0, &filter).into_iter().map(|f| f.path).collect()
    };
    assert_eq!(names(Some(21), None), vec!["b", "c"]);
    assert_eq!(names(None, Some(10)), vec!["a", "c", "d"]);
    assert_eq!(names(Some(20), Some(29)), vec!["a", "c"]);
    assert!(names(Some(51), None).is_empty());
    assert!(files.get_files(1, 7).is_empty());
}

#[test]
fn snapshot_of_everything() {
    let mut files = PersistedFiles::new();
    files.add_persisted_file(1, 0, &file("a"));
    files.add_persisted_file(2, 5, &file("b"));
    files.add_persisted_file(2, 6, &file("c"));
    files.remove_persisted_files(2, 6, &vec![file("c")]);
    let mut all: Vec<(u32, u32, String)> = files
        .snapshot_all()
        .into_iter()
        .map(|t| (t.db_id, t.table_id, t.files[0].path.clone()))
        .collect();
    all.sort();
    assert_eq!(all, vec![(1, 0, "a".to_string()), (2, 5, "b".to_string())]);
}

fn removed_paths(tables: &[TableFiles]) -> Vec<String> {
    let mut out: Vec<String> =
        tables.iter().flat_map(|t| t.files.iter().map(|f| f.path.clone())).collect();
    out.sort();
    out
}

#[test]
fn deletion_of_marked_and_expired_files() {
    let mut files = PersistedFiles::new();
    files.add_persisted_file(1, 0, &timed("old", 0, 9));
    files.add_persisted_file(1, 0, &timed("edge", 0, 10));
    files.add_persisted_file(1, 1, &timed("kept", 0, 0));
    files.add_persisted_file(2, 0, &timed("dropped-table", 0, 99));
    files.add_persisted_file(2, 1, &timed("other-table", 0, 99));
    files.add_persisted_file(3, 0, &timed("dropped-db-1", 0, 99));
    files.add_persisted_file(3, 1, &timed("dropped-db-2", 0, 99));
    let cutoffs = vec![RetentionCutoff { db_id: 1, table_id: 0, cutoff: 10 }];
    files.delete_table(2, 0);
    files.delete_database(3);
    files.delete_table(3, 7);
    let removed = files.remove_files_for_deletion(&cutoffs);
    assert_eq!(
        removed_paths(&removed),
        vec!["dropped-db-1", "dropped-db-2", "dropped-table", "old"]
    );
    assert_eq!(paths(&files), vec!["edge"]);
    assert_eq!(files.get_files(2, 1).len(), 1);
    assert!(files.get_files(3, 0).is_empty());
    assert_eq!(files.get_metrics(), (3, 30, 6));
    // A second pass finds nothing.
    assert!(files.remove_files_for_deletion(&cutoffs).is_empty());
    assert_eq!(files.get_metrics(), (3, 30, 6));
}

#[test]
fn deletion_marks_wait_for_files() {
    let mut files = PersistedFiles::new();
    files.delete_table(1, 0);
    assert!(files.remove_files_for_deletion(&vec![]).is_empty());
    // The mark is still there when a file arrives.
    files.add_persisted_file(1, 0, &file("late"));
    assert_eq!(removed_paths(&files.remove_files_for_deletion(&vec![])), vec!["late"]);
    // Now it is used up.
    files.add_persisted_file(1, 0, &file("later"));
    assert!(files.remove_files_for_deletion(&vec![]).is_empty());
}

#[test]
fn deletion_removes_a_path_everywhere_but_lists_it_once() {
    let mut files = PersistedFiles::new();
    files.add_persisted_file(1, 0, &file("shared"));
    files.add_persisted_file(1, 1, &file("shared"));
    files.delete_table(1, 1);
    let removed = files.remove_files_for_deletion(&vec![]);
    assert_eq!(removed.len(), 1);
    assert_eq!((removed[0].db_id, removed[0].table_id), (1, 1));
    assert!(paths(&files).is_empty());
    assert_eq!(files.get_metrics().0, 1);
}

fn checkpoint(year_month: u64, path: &str) -> PersistedSnapshotCheckpoint {
    PersistedSnapshotCheckpoint {
        year_month,
        databases: vec![TableFiles { db_id: 1, table_id: 0, files: vec![file(path)] }],
        pending_removed_files: Vec::new(),
        parquet_size_bytes: 10,
        row_count: 2,
    }
}

fn merge(
    mut a: PersistedSnapshotCheckpoint,
    b: PersistedSnapshotCheckpoint,
) -> PersistedSnapshotCheckpoint {
    a.year_month = b.year_month;
    a.databases.extend(b.databases);
    a.parquet_size_bytes += b.parquet_size_bytes;
    a.row_count += b.row_count;
    a
}

#[test]
fn checkpoints_are_merged_in_order_of_month() {
    let list = vec![checkpoint(202603, "m3"), checkpoint(202601, "m1"), checkpoint(202602, "m2")];
    let files = PersistedFiles::new_from_checkpoints_and_snapshots(
        list,
        &vec![snapshot(&["new"], &["m2"])],
        merge,
    );
    assert_eq!(paths(&files), vec!["m1", "m3", "new"]);
    assert_eq!(files.get_metrics(), (3, 30, 6));
    let none = PersistedFiles::new_from_checkpoints_and_snapshots(
        Vec::new(),
        &vec![snapshot(&["new"], &[])],
        merge,
    );
    assert_eq!(paths(&none), vec!["new"]);
}

#[test]
fn counters_do_not_overflow() {
    let mut files = PersistedFiles::new();
    let mut big = file("a");
    big.row_count = u64::MAX;
    big.size_bytes = u64::MAX;
    let mut s = PersistedSnapshot::new("w".to_string(), 1, 1, 0);
    s.add_parquet_file(1, 0, big);
    s.add_parquet_file(1, 0, file("b"));
    files.add_persisted_snapshot_files(&s);
    assert_eq!(files.get_metrics(), (2, u64::MAX as i128, u64::MAX));
}

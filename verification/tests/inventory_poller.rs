use influxdb3_write::files::{ParquetFile, PersistedSnapshot, TableFiles};
use influxdb3_write::inventory_poller::{evict_covered, tick, InventoryWatermarks, TickSummary};
use influxdb3_write::persisted_files::PersistedFiles;
use influxdb3_write::wal_tail::WalTailBuffer;
use influxdb3_write::watermarks::NodeMarks;

fn file(path: &str) -> ParquetFile {
    ParquetFile {
        id: 0,
        path: path.to_string(),
        size_bytes: 10,
        row_count: 1,
        chunk_time: 0,
        min_time: 0,
        max_time: 0,
    }
}

fn snap(node: &str, seq: u64, file_path: &str) -> PersistedSnapshot {
    let mut s = PersistedSnapshot::new(node.to_string(), seq, seq, 0);
    s.add_parquet_file(1, 0, file(file_path));
    s
}

fn removal(path: &str) -> PersistedSnapshot {
    let mut s = PersistedSnapshot::new("c".to_string(), 0, 0, 0);
    s.removed_files = vec![TableFiles { db_id: 1, table_id: 0, files: vec![file(path)] }];
    s
}

#[test]
fn tick_picks_up_new_wal_snapshots() {
    let mut files = PersistedFiles::new();
    let mut wal_cursors = NodeMarks::new();
    let mut comp_cursor: Option<String> = None;
    let n = tick(
        &mut files,
        &mut wal_cursors,
        &mut comp_cursor,
        &vec![snap("writer-1", 1, "a/1.parquet")],
        &vec![],
    );
    assert_eq!(n.total(), 1);
    assert_eq!(wal_cursors.get("writer-1"), Some(1));

    // empty tick: nothing new
    let n = tick(&mut files, &mut wal_cursors, &mut comp_cursor, &vec![], &vec![]);
    assert_eq!(n.total(), 0);

    // publish another, tick picks it up
    let n = tick(
        &mut files,
        &mut wal_cursors,
        &mut comp_cursor,
        &vec![snap("writer-1", 2, "a/2.parquet")],
        &vec![],
    );
    assert_eq!(n.total(), 1);
    assert_eq!(n.wal_snapshots, 1);
    assert_eq!(wal_cursors.get("writer-1"), Some(2));

    // metrics reflect both
    let (count, _, _) = files.get_metrics();
    assert_eq!(count, 2);
}

#[test]
fn tick_folds_compactions_under_their_ids() {
    let mut files = PersistedFiles::new();
    let mut wal_cursors = NodeMarks::new();
    let mut comp_cursor = Some("01A".to_string());
    let superseded = "c/dbs/x/gen2/019a.parquet";
    let n = tick(
        &mut files,
        &mut wal_cursors,
        &mut comp_cursor,
        &vec![snap("w", 4, "w/a.parquet")],
        &vec![
            ("01B".to_string(), removal(superseded)),
            ("01C".to_string(), snap("c", 0, superseded)),
        ],
    );
    assert_eq!(n, TickSummary { wal_snapshots: 1, compactions: 2 });
    assert_eq!(comp_cursor.as_deref(), Some("01C"));
    // The removal came first; its tombstone kept the file out.
    assert_eq!(files.get_files(1, 0).len(), 1);
    // The cursor has passed the removing compaction, so the tombstone is gone.
    assert_eq!(files.tombstone_count(), 0);
}

#[test]
fn tick_drops_tombstones_behind_the_cursors() {
    let mut files = PersistedFiles::new();
    let mut wal_cursors = NodeMarks::new();
    let mut comp_cursor: Option<String> = None;
    let early = ("01B".to_string(), removal("w/dbs/1/0/d/h/0000000009.parquet"));
    tick(&mut files, &mut wal_cursors, &mut comp_cursor, &vec![], &vec![early]);
    assert_eq!(files.tombstone_count(), 1, "the writer has not got there yet");
    tick(
        &mut files,
        &mut wal_cursors,
        &mut comp_cursor,
        &vec![snap("w", 9, "w/dbs/1/0/d/h/0000000009.parquet")],
        &vec![],
    );
    assert_eq!(files.tombstone_count(), 0);
    assert!(files.get_files(1, 0).is_empty());
}

#[test]
fn publishes_watermarks_after_tick() {
    let marks = InventoryWatermarks::default();
    assert_eq!(marks.wal.get("w1"), None);
    assert_eq!(marks.compaction, None);
    let mut files = PersistedFiles::new();
    let mut wal_cursors = marks.wal;
    let mut comp_cursor = marks.compaction;
    tick(
        &mut files,
        &mut wal_cursors,
        &mut comp_cursor,
        &vec![snap("w1", 7, "a.parquet")],
        &vec![],
    );
    let published = InventoryWatermarks { wal: wal_cursors.duplicate(), compaction: comp_cursor };
    assert_eq!(published.wal.get("w1"), Some(7));
    assert_eq!(published.wal.to_pairs(), vec![("w1".to_string(), 7)]);
}

#[test]
fn cursors_do_not_go_back() {
    let mut files = PersistedFiles::new();
    let mut wal_cursors = NodeMarks::new();
    wal_cursors.set("w", 9);
    let mut comp_cursor: Option<String> = None;
    tick(&mut files, &mut wal_cursors, &mut comp_cursor, &vec![snap("w", 4, "a")], &vec![]);
    assert_eq!(wal_cursors.get("w"), Some(9));
}

#[test]
fn covered_log_files_are_dropped() {
    let mut tail: WalTailBuffer<&str> =
        WalTailBuffer::new(vec!["w".to_string(), "v".to_string()], 10);
    for seq in 1..=4 {
        tail.add_file("w", seq, "state");
        tail.add_file("v", seq, "state");
    }
    evict_covered(&mut tail, &vec![snap("w", 3, "a"), snap("w", 2, "b")]);
    let paths: Vec<String> = (1..=5).map(|s| format!("x/wal/{s:011}.wal")).collect();
    // Nothing below what was kept or covered is fetched again.
    assert_eq!(tail.wanted("w", &paths), vec![4]);
    assert_eq!(tail.wanted("v", &paths), vec![4]);
}

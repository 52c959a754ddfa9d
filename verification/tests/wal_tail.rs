use influxdb3_write::buffer_chunk::{
    batches_to_buffer_chunks, get_table_chunks, BufferChunk, SizedBatch, TailPartition, TailSlice,
    TimestampMinMax,
};
use influxdb3_write::chunk::table_partition_id;
use influxdb3_write::composite_write_buffer::{self, CHUNK_ORDER_WAL_TAIL};
use influxdb3_write::files::{ChunkFilter, PersistedSnapshot};
use influxdb3_write::wal_reaper::{
    self, discover_node_prefixes, has_unsnapshotted_wal, latest_covered_wal_seq, reap_step,
    writer_lease_path, ReapStep,
};
use influxdb3_write::wal_tail::{parse_wal_seq, WalTailBuffer, WriterTail};

#[test]
fn parse_seq_handles_canonical_paths() {
    let p = object_store::path::Path::from("writer-1/wal/00000000042.wal");
    let s = parse_wal_seq(p.as_ref()).unwrap();
    assert_eq!(s, 42);
}

#[test]
fn parse_seq_edges() {
    assert_eq!(parse_wal_seq(""), None);
    assert_eq!(parse_wal_seq("w/wal/7"), Some(7));
    assert_eq!(parse_wal_seq("w/wal/7.wal.wal"), Some(7));
    assert_eq!(parse_wal_seq("w/wal/x.wal"), None);
    // The reaper asks for exactly one suffix.
    assert_eq!(wal_reaper::parse_wal_seq("w/wal/7.wal"), Some(7));
    assert_eq!(wal_reaper::parse_wal_seq("w/wal/7"), None);
    assert_eq!(wal_reaper::parse_wal_seq("w/wal/7.wal.wal"), None);
    assert_eq!(wal_reaper::parse_wal_seq(""), None);
}

fn kept(tail: &WriterTail<()>) -> Vec<u64> {
    tail.sequences()
}

#[test]
fn replayed_files_come_oldest_first() {
    let mut tail: WalTailBuffer<&str> = WalTailBuffer::new(vec![], 10);
    for (writer, seq, state) in
        [("w", 9, "w9"), ("v", 2, "v2"), ("w", 3, "w3"), ("w", 30, "w30"), ("v", 1, "v1")]
    {
        tail.add_file(writer, seq, state);
    }
    let of = |name: &str| -> Vec<&str> {
        tail.states().iter().filter(|f| f.writer == name).map(|f| *f.state).collect()
    };
    assert_eq!(of("w"), vec!["w3", "w9", "w30"]);
    assert_eq!(of("v"), vec!["v1", "v2"]);
    assert_eq!(tail.states().len(), 5);
}

#[test]
fn cap_evicts_oldest_keeping_most_recent() {
    let mut tail = WriterTail::new();
    let mut lost = Vec::new();
    for seq in 1..=3u64 {
        lost.extend(tail.add_file(seq, (), 2, 0));
    }
    assert_eq!(kept(&tail), vec![2, 3], "cap must keep the most recent files");
    assert_eq!(tail.cursor(), 3);
    assert_eq!(lost, vec![1], "the dropped file was not persisted");
}

#[test]
fn cap_is_silent_about_persisted_files() {
    let mut tail = WriterTail::new();
    tail.add_file(1, (), 1, 5);
    assert!(tail.add_file(7, (), 1, 5).is_empty());
    assert_eq!(kept(&tail), vec![7]);
    // A file older than all that are kept is the first to go.
    assert_eq!(tail.add_file(6, (), 1, 5), vec![6]);
    assert_eq!(kept(&tail), vec![7]);
    let empty: WriterTail<()> = WriterTail::new();
    assert_eq!(empty.cursor(), 0);
}

#[test]
fn empty_writer_list_tick_is_noop() {
    let tail: WalTailBuffer<()> = WalTailBuffer::new(vec![], 16);
    assert!(tail.writer_node_ids().is_empty());
    assert!(tail.wanted("w", &vec![]).is_empty());
}

#[test]
fn only_new_log_files_are_wanted() {
    let mut tail: WalTailBuffer<()> = WalTailBuffer::new(vec!["w".to_string()], 0);
    let paths: Vec<String> =
        ["w/wal/1.wal", "w/wal/bad.wal", "w/wal/3.wal", "w/wal/0.wal", "w/wal/9.wal"]
            .iter()
            .map(|p| p.to_string())
            .collect();
    assert_eq!(tail.wanted("w", &paths), vec![0, 2, 4]);
    tail.add_file("w", 3, ());
    assert_eq!(tail.wanted("w", &paths), vec![4]);
    tail.evict_up_to("w", 9);
    assert!(tail.wanted("w", &paths).is_empty());
    // The mark does not go back.
    tail.evict_up_to("w", 2);
    assert!(tail.wanted("w", &paths).is_empty());
    // A cap of zero still keeps one file.
    assert!(tail.add_file("w", 12, ()).is_empty());
    assert_eq!(tail.add_file("w", 13, ()), vec![12]);
}

fn batch(id: u32, num_rows: u64) -> SizedBatch<u32> {
    SizedBatch { batch: id, num_rows }
}

fn slice(chunk_time: i64, min: i64, max: i64, batches: Vec<SizedBatch<u32>>) -> TailSlice<u32> {
    let times = TimestampMinMax { min, max };
    TailSlice { times, partitions: vec![TailPartition { chunk_time, times, batches }] }
}

fn total_rows(chunks: &[BufferChunk<u32>]) -> u64 {
    chunks.iter().map(|c| c.row_count).sum()
}

#[test]
fn coalesces_tail_chunks_per_partition() {
    let slices: Vec<_> = (0..5).map(|i| slice(0, 1000, 1000, vec![batch(i, 1)])).collect();
    let chunks = get_table_chunks(slices, &ChunkFilter::default(), 0, 3, 9);
    assert_eq!(chunks.len(), 1, "tail chunks coalesce to one per partition");
    assert_eq!(total_rows(&chunks), 5, "all rows preserved across files");
    let ids: Vec<u32> = chunks[0].batches.iter().map(|b| b.batch).collect();
    assert_eq!(ids, vec![0, 1, 2, 3, 4], "newer rows come later");
    assert_eq!(chunks[0].partition_id, table_partition_id(3, 9));
}

#[test]
fn time_prunes_non_overlapping_tail_files() {
    let slices = || (0..3).map(|i| slice(0, 1000, 1000, vec![batch(i, 1)])).collect::<Vec<_>>();
    let future = ChunkFilter { time_lower_bound_ns: Some(1_000_000_000_000), time_upper_bound_ns: None };
    assert!(get_table_chunks(slices(), &future, 0, 1, 1).is_empty());
    let overlap = ChunkFilter { time_lower_bound_ns: Some(0), time_upper_bound_ns: None };
    let chunks = get_table_chunks(slices(), &overlap, 0, 1, 1);
    assert_eq!(chunks.len(), 1, "overlapping window returns the partition");
    assert_eq!(total_rows(&chunks), 3);
}

#[test]
fn bench_tail_get_table_chunks_at_scale() {
    for n_files in [100u32, 1000, 2000] {
        let slices: Vec<_> =
            (0..n_files).map(|i| slice(0, 1000, 1000, vec![batch(i, 1)])).collect();
        let chunks = get_table_chunks(slices, &ChunkFilter::default(), 0, 1, 1);
        assert_eq!(chunks.len(), 1, "one partition coalesces to one chunk regardless of file count");
        assert_eq!(total_rows(&chunks), n_files as u64);
    }
}

#[test]
fn partitions_keep_their_own_times() {
    let slices = vec![
        slice(0, 5, 9, vec![batch(1, 2)]),
        slice(60, 61, 70, vec![batch(2, 3)]),
        slice(0, 1, 7, vec![batch(3, 4)]),
        slice(120, 121, 130, vec![]),
    ];
    let chunks = get_table_chunks(slices, &ChunkFilter::default(), CHUNK_ORDER_WAL_TAIL, 1, 1);
    assert_eq!(chunks.len(), 2, "a partition without batches makes no chunk");
    assert_eq!(chunks[0].times, Some(TimestampMinMax { min: 1, max: 9 }));
    assert_eq!(chunks[0].row_count, 6);
    assert_eq!(chunks[1].times, Some(TimestampMinMax { min: 61, max: 70 }));
    assert_eq!(chunks[1].chunk_order, i64::MAX - 2);
}

#[test]
fn remote_batches_make_one_chunk() {
    assert!(batches_to_buffer_chunks(Vec::<SizedBatch<u32>>::new(), 1, 2, 3).is_empty());
    assert!(batches_to_buffer_chunks(vec![batch(1, 0)], 1, 2, 3).is_empty());
    let chunks = batches_to_buffer_chunks(vec![batch(1, 0), batch(2, 5)], i64::MAX - 1, 2, 3);
    assert_eq!(chunks.len(), 1);
    assert_eq!(chunks[0].row_count, 5);
    assert_eq!(chunks[0].batches.len(), 2);
    assert_eq!(chunks[0].times, None);
    assert_eq!(chunks[0].partition_id, table_partition_id(2, 3));
    assert_eq!(chunks[0].chunk_order, i64::MAX - 1);
}

#[test]
fn composite_puts_the_tail_behind() {
    assert_eq!(composite_write_buffer::get_table_chunks(vec![1, 2], Some(vec![3])), vec![1, 2, 3]);
    assert_eq!(composite_write_buffer::get_table_chunks(vec![1, 2], None), vec![1, 2]);
}

fn strings(list: &[&str]) -> Vec<String> {
    list.iter().map(|s| s.to_string()).collect()
}

#[test]
fn writers_are_discovered_from_leases_and_manifests() {
    let locks = strings(&[
        "_locks/writer-a.lease",
        "_locks/compactor.lease",
        "_locks/writer-b",
        "_locks/writer.lease",
    ]);
    let manifests = strings(&[
        "_inventory/wal/b/1.info.json",
        "_inventory/wal/a/2.info.json",
        "_inventory/wal/c",
    ]);
    let mut found = discover_node_prefixes(&locks, &manifests);
    found.sort();
    assert_eq!(found, vec!["a", "b"]);
}

#[test]
fn log_files_beyond_the_manifests_are_noticed() {
    let paths = strings(&["a/wal/1.wal", "a/wal/5.wal", "a/wal/junk"]);
    assert!(has_unsnapshotted_wal(&paths, Some(4)));
    assert!(!has_unsnapshotted_wal(&paths, Some(5)));
    assert!(has_unsnapshotted_wal(&paths, None));
    assert!(!has_unsnapshotted_wal(&strings(&["a/wal/0.wal"]), None));
    assert!(!has_unsnapshotted_wal(&vec![], None));
}

#[test]
fn orphaned_logs_are_adopted_under_the_writers_lease() {
    let paths = strings(&["a/wal/5.wal"]);
    let ttl = influxdb3_write::duration::Duration::from_secs(60);
    let ReapStep::Adopt(config) = reap_step("a", "compactor-0", &paths, Some(3), ttl) else {
        panic!("expected to adopt");
    };
    assert_eq!(config.path, "_locks/writer-a.lease");
    assert_eq!(config.path, writer_lease_path("a"));
    assert_eq!(config.owner, "reaper-compactor-0");
    assert_eq!(config.ttl, ttl);
    assert!(matches!(reap_step("a", "a", &paths, Some(3), ttl), ReapStep::Skip));
    assert!(matches!(reap_step("a", "c", &paths, Some(5), ttl), ReapStep::Skip));
}

#[test]
fn newest_manifest_of_a_writer_covers_its_log() {
    let snapshot = |node: &str, seq: u64, wal: u64| {
        PersistedSnapshot::new(node.to_string(), seq, wal, 0)
    };
    let manifests = vec![snapshot("a", 1, 7), snapshot("b", 1, 90), snapshot("a", 2, 3)];
    assert_eq!(latest_covered_wal_seq("a", &manifests), Some(7));
    assert_eq!(latest_covered_wal_seq("b", &manifests), Some(90));
    assert_eq!(latest_covered_wal_seq("c", &manifests), None);
}

#[test]
fn writer_whose_lease_is_left_behind_is_found() {
    let locks = vec![writer_lease_path("writer-7"), writer_lease_path("a.b:1")];
    assert_eq!(locks[0], "_locks/writer-writer-7.lease");
    let mut found = discover_node_prefixes(&locks, &Vec::new());
    found.sort();
    assert_eq!(found, vec!["a.b:1", "writer-7"]);
}

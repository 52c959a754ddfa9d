use influxdb3_write::chunk::{
    find_generation, parse_file_sequence, parse_generation, persisted_chunk_order,
    table_partition_id, CHUNK_ORDER_GEN_BAND,
};
use influxdb3_write::files::ParquetFile;

fn file(path: &str) -> ParquetFile {
    ParquetFile {
        id: 0,
        path: path.to_string(),
        size_bytes: 1,
        row_count: 1,
        chunk_time: 0,
        min_time: 0,
        max_time: 1,
    }
}

#[test]
fn partition_id_is_identical_across_sources_for_same_table() {
    let a = table_partition_id(3, 9);
    let b = table_partition_id(3, 9);
    let other = table_partition_id(3, 10);
    assert_eq!(a, b);
    assert_ne!(a, other);
}

#[test]
fn gen1_files_order_above_compacted_and_by_wal_seq() {
    let gen1_old = persisted_chunk_order(&file(
        "writer-1/dbs/38/9/2026-05-07/13-35/0000000598.parquet",
    ));
    let gen1_new = persisted_chunk_order(&file(
        "writer-1/dbs/38/9/2026-05-07/13-35/0000000600.parquet",
    ));
    let gen2 = persisted_chunk_order(&file(
        "compactor-1/compactions/gen2/38/9/01JXABCDEF.parquet",
    ));
    let gen5 = persisted_chunk_order(&file(
        "compactor-1/compactions/gen5/38/9/01JXABCDEF.parquet",
    ));
    assert!(gen1_new > gen1_old, "newer WAL seq must win within gen1");
    assert!(gen1_old > gen2, "gen1 survivors postdate compacted output");
    assert!(gen2 > gen5, "lower generations are newer data");
    // Everything persisted stays below the in-memory bands.
    assert!(gen1_new < i64::MAX - 2);
}

#[test]
fn parse_generation_reads_gen_segment() {
    assert_eq!(parse_generation("h/compactions/gen3/1/2/x.parquet"), Some(3));
    assert_eq!(parse_generation("h/dbs/1/2/2026-01-01/00-00/0000000001.parquet"), None);
}

#[test]
fn parse_generation_edges() {
    assert_eq!(parse_generation("a/gen+4/b"), Some(4));
    assert_eq!(parse_generation("a/gen256/b"), None);
    assert_eq!(parse_generation("a/gen/b"), None);
    assert_eq!(parse_generation("a/gen7"), None);
    assert_eq!(parse_generation("gen2/x"), None);
    // A directory that only starts like a generation is none.
    assert_eq!(parse_generation("a/genx/gen2/b"), Some(2));
    assert_eq!(
        parse_generation("h/dbs/genomics-1/t-2/gen3/2026-01-01/00-00/x.parquet"),
        Some(3)
    );
    // The first that is one decides.
    assert_eq!(parse_generation("a/gen4/gen2/b"), Some(4));
    assert_eq!(parse_generation("a/gen256/gen2/b"), None);
    assert_eq!(find_generation("a/genx/gen2/b"), Some("2".to_string()));
    assert_eq!(find_generation("a/genx/b"), None);
    assert_eq!(find_generation("é/gen12/b"), Some("12".to_string()));
}

#[test]
fn parse_file_sequence_reads_numeric_names() {
    assert_eq!(parse_file_sequence("a/b/0000000598.parquet"), Some(598));
    assert_eq!(parse_file_sequence("18446744073709551615.parquet"), Some(u64::MAX));
    assert_eq!(parse_file_sequence("18446744073709551616.parquet"), None);
    assert_eq!(parse_file_sequence("a/01JXABCDEF.parquet"), None);
    assert_eq!(parse_file_sequence("a/598.json"), None);
    assert_eq!(parse_file_sequence("a/0000000598-1.parquet"), Some(598));
    assert_eq!(parse_file_sequence("a/0000000598-.parquet"), None);
    assert_eq!(parse_file_sequence("a/0000000598-1-2.parquet"), None);
    assert_eq!(parse_file_sequence("a/01912345-0000-7000-8000-000000000000.parquet"), None);
    assert_eq!(parse_file_sequence("a/.parquet"), None);
}

#[test]
fn chunk_orders_are_banded_by_generation() {
    assert_eq!(persisted_chunk_order(&file("w/dbs/7.parquet")), 4 * CHUNK_ORDER_GEN_BAND + 7);
    assert_eq!(persisted_chunk_order(&file("c/gen3/x.parquet")), 2 * CHUNK_ORDER_GEN_BAND);
    // Generations outside 1..=5 are clamped.
    assert_eq!(persisted_chunk_order(&file("c/gen0/x.parquet")), 4 * CHUNK_ORDER_GEN_BAND);
    assert_eq!(persisted_chunk_order(&file("c/gen9/x.parquet")), 0);
    // A sequence number beyond the band stays in it.
    assert_eq!(
        persisted_chunk_order(&file("c/gen5/18446744073709551615.parquet")),
        CHUNK_ORDER_GEN_BAND - 1
    );
}

#[test]
fn parts_of_a_split_snapshot_order_by_its_sequence() {
    let dir = "w/dbs/1/2/2026-05-07/13-35";
    let order = |name: &str| persisted_chunk_order(&file(&format!("{dir}/{name}")));
    assert!(order("0000000600-1.parquet") > order("0000000598.parquet"));
    assert_eq!(order("0000000600-1.parquet"), order("0000000600.parquet"));
}

#[test]
fn partition_keys_are_decimal() {
    assert_eq!(table_partition_id(0, 4294967295).key, "0/4294967295");
    assert_eq!(table_partition_id(12, 3).key, "12/3");
    assert_eq!(table_partition_id(12, 3).table, 0);
}

use std::sync::Arc;

use bytes::Bytes;
use futures_util::StreamExt;
use influxdb3_write::checkpoint::{inventory_checkpoint, restore};
use influxdb3_write::files::{ParquetFile, PersistedSnapshot};
use influxdb3_write::inventory_poller::InventoryWatermarks;
use influxdb3_write::persisted_files::PersistedFiles;
use influxdb3_write::shared_inventory::{
    all_live_consumers_folded, checkpoint_entry, compaction_entry, consumer_entry,
    new_checkpoint_entry, new_compaction_id, newest_checkpoint, select_compactions,
    select_wal_entries, wal_entry, wal_snapshot_path, Checkpoint, ConsumerHeartbeat, ListedObject,
    LoadedInventory, SHARED_INVENTORY_PREFIX,
};
use influxdb3_write::watermarks::NodeMarks;
use object_store::memory::InMemory;
use object_store::path::Path;
use object_store::ObjectStore;

fn block<F: std::future::Future>(f: F) -> F::Output {
    tokio::runtime::Builder::new_current_thread().build().unwrap().block_on(f)
}

fn snap_with(node: &str, seq: u64, file_path: &str) -> PersistedSnapshot {
    let mut s = PersistedSnapshot::new(node.to_string(), seq, seq, 0);
    s.add_parquet_file(
        1,
        0,
        ParquetFile {
            id: 0,
            path: file_path.to_string(),
            size_bytes: 10,
            row_count: 1,
            chunk_time: 0,
            min_time: 0,
            max_time: 0,
        },
    );
    s
}

/// Publishes a manifest under its path; its file path stands for its content.
async fn put(store: &Arc<dyn ObjectStore>, location: &str, content: &str) {
    let path = Path::parse(location).unwrap();
    store.put(&path, Bytes::from(content.to_string()).into()).await.unwrap();
}

async fn list(store: &Arc<dyn ObjectStore>, dir: &str) -> Vec<ListedObject> {
    let mut listing = store.list(Some(&Path::from(dir)));
    let mut out = Vec::new();
    while let Some(item) = listing.next().await {
        let meta = item.unwrap();
        out.push(ListedObject { location: meta.location.to_string(), size: meta.size });
    }
    out
}

async fn load_wal(
    store: &Arc<dyn ObjectStore>,
    since: &NodeMarks,
) -> Vec<(u64, String)> {
    let listing = list(store, "_inventory/wal").await;
    let mut out = Vec::new();
    for entry in select_wal_entries(&listing, since) {
        let found = store.get(&Path::parse(&entry.location).unwrap()).await.unwrap();
        let text = String::from_utf8(found.bytes().await.unwrap().to_vec()).unwrap();
        out.push((entry.sequence, text));
    }
    out
}

fn heartbeat(node: &str, cursor: Option<&str>, now: i64) -> ConsumerHeartbeat {
    ConsumerHeartbeat::new(node, cursor.map(|c| c.to_string()), now)
}

#[test]
fn consumer_convergence_gate() {
    let cid = "019ec300-0000-7000-8000-000000000000"; // the compaction being deleted

    // No consumers → nothing to wait for.
    assert!(all_live_consumers_folded(&vec![], cid, 1000, 60_000));

    // A consumer that has NOT folded cid (older cursor) blocks.
    let old = "019ec200-0000-7000-8000-000000000000";
    let consumers = vec![heartbeat("q1", Some(old), 1000)];
    assert!(!all_live_consumers_folded(&consumers, cid, 1000, 60_000));

    // A consumer with no cursor at all blocks.
    let consumers = vec![heartbeat("q1", Some(old), 1000), heartbeat("q2", None, 1000)];
    assert!(!all_live_consumers_folded(&consumers, cid, 1000, 60_000));

    // Both advance past cid → unblocked.
    let newer = "019ec300-0000-7000-8000-000000000001";
    let consumers = vec![heartbeat("q1", Some(newer), 2000), heartbeat("q2", Some(cid), 2000)];
    assert!(all_live_consumers_folded(&consumers, cid, 2000, 60_000));

    // A stale lagging consumer is ignored (heartbeat older than ttl).
    let lagging = "019ec100-0000-7000-8000-000000000000";
    let consumers = vec![
        heartbeat("q1", Some(newer), 2000),
        heartbeat("q2", Some(cid), 2000),
        heartbeat("q3", Some(lagging), 2000),
    ];
    assert!(all_live_consumers_folded(&consumers, cid, 100_000, 60_000));
}

#[test]
fn boot_heartbeat_blocks_deletion_until_querier_catches_up() {
    let baseline = "019ec5e7-0000-7000-8000-000000000000"; // checkpoint baseline
    let newer = "019ec628-0000-7000-8000-000000000000"; // a compaction after baseline
    let consumers = vec![heartbeat("q-boot", Some(baseline), 1000)];
    assert!(!all_live_consumers_folded(&consumers, newer, 1000, 60_000));
    let consumers = vec![heartbeat("q-boot", Some(newer), 2000)];
    assert!(all_live_consumers_folded(&consumers, newer, 2000, 60_000));
}

#[test]
fn staleness_at_the_edges() {
    let hb = heartbeat("q", None, 1000);
    assert!(hb.blocks("c", 61_000, 60_000), "exactly as old as allowed is alive");
    assert!(!hb.blocks("c", 61_001, 60_000));
    assert!(hb.blocks("c", 0, 60_000), "from the future is alive");
    let ancient = heartbeat("q", None, i64::MIN);
    assert!(!ancient.blocks("c", i64::MAX, 0));
    assert!(ancient.blocks("c", i64::MAX, i64::MAX));
}

#[test]
fn publish_and_load_wal_snapshots_across_nodes() {
    block(async {
        let store: Arc<dyn ObjectStore> = Arc::new(InMemory::new());
        for (node, seq, path) in
            [("node-a", 1, "a/1.parquet"), ("node-b", 1, "b/1.parquet"), ("node-a", 2, "a/2.parquet")]
        {
            let snap = snap_with(node, seq, path);
            put(&store, &wal_snapshot_path(node, &snap), path).await;
        }
        let loaded = load_wal(&store, &NodeMarks::new()).await;
        assert_eq!(loaded.len(), 3);
        let paths: Vec<&str> = loaded.iter().map(|(_, p)| p.as_str()).collect();
        assert!(paths.contains(&"a/1.parquet"));
        assert!(paths.contains(&"a/2.parquet"));
        assert!(paths.contains(&"b/1.parquet"));
        assert_eq!(loaded[2].0, 2, "ascending by sequence");
    });
}

#[test]
fn publish_and_load_compactions() {
    block(async {
        let store: Arc<dyn ObjectStore> = Arc::new(InMemory::new());
        put(&store, &compaction_entry("0002"), "gen2/1.parquet").await;
        put(&store, &compaction_entry("0001"), "gen2/0.parquet").await;
        let listing = list(&store, "_inventory/compactions").await;
        let ids: Vec<String> =
            select_compactions(&listing, None).into_iter().map(|e| e.id).collect();
        assert_eq!(ids, vec!["0001", "0002"]);
    });
}

#[test]
fn since_cursors_skip_already_seen_entries() {
    block(async {
        let store: Arc<dyn ObjectStore> = Arc::new(InMemory::new());
        for seq in 1..=5u64 {
            put(&store, &wal_entry("node-a", seq), &format!("a/{seq}.parquet")).await;
        }
        let mut since = NodeMarks::new();
        since.set("node-a", 3);
        let loaded = load_wal(&store, &since).await;
        let seqs: Vec<u64> = loaded.iter().map(|(s, _)| *s).collect();
        assert_eq!(seqs, vec![4, 5]);

        for id in ["01A", "01B", "01C"] {
            put(&store, &compaction_entry(id), "x.parquet").await;
        }
        let listing = list(&store, "_inventory/compactions").await;
        let ids: Vec<String> =
            select_compactions(&listing, Some("01A")).into_iter().map(|e| e.id).collect();
        assert_eq!(ids, vec!["01B", "01C"]);
    });
}

#[test]
fn entries_have_their_paths() {
    assert_eq!(SHARED_INVENTORY_PREFIX, "_inventory");
    assert_eq!(wal_entry("node-a", 0), "_inventory/wal/node-a/18446744073709551615.info.json");
    assert_eq!(
        wal_entry("node-a", u64::MAX),
        "_inventory/wal/node-a/00000000000000000000.info.json"
    );
    assert_eq!(wal_entry("a b/~", 1), "_inventory/wal/a b/%7E/18446744073709551614.info.json");
    assert_eq!(compaction_entry("x"), "_inventory/compactions/x.compaction.json");
    assert_eq!(checkpoint_entry("x"), "_inventory/checkpoint/x.full.json");
    assert_eq!(consumer_entry("q1"), "_inventory/consumers/q1.json");
    // The later manifest is listed first.
    assert!(wal_entry("n", 10) < wal_entry("n", 9));
}

#[test]
fn manifests_of_every_node_are_loaded() {
    block(async {
        let store: Arc<dyn ObjectStore> = Arc::new(InMemory::new());
        // Paths hold the marks in this one as they are.
        let marked = "host:1 !$&'()+,;=@_.";
        assert_eq!(
            wal_entry(marked, u64::MAX),
            format!("_inventory/wal/{marked}/00000000000000000000.info.json")
        );
        let odd = ["a%b", "~", "..", "\u{e9}"];
        assert_eq!(wal_entry("a%b", 1), "_inventory/wal/a%25b/18446744073709551614.info.json");
        for (n, node) in odd.iter().enumerate() {
            put(&store, &wal_entry(node, n as u64 + 3), node).await;
        }
        put(&store, &wal_entry(marked, 1), "first").await;
        put(&store, &wal_entry(marked, 2), "second").await;
        put(&store, &wal_entry(marked, 2), "second").await;

        let mut marks = NodeMarks::new();
        let all: Vec<(u64, String)> = load_wal(&store, &marks).await;
        let contents: Vec<&str> = all.iter().map(|(_, text)| text.as_str()).collect();
        assert_eq!(contents, vec!["first", "second", "a%b", "~", "..", "\u{e9}"]);
        assert_eq!(all.iter().map(|(seq, _)| *seq).collect::<Vec<_>>(), vec![1, 2, 3, 4, 5, 6]);

        marks.set(marked, 1);
        let newer = load_wal(&store, &marks).await;
        assert_eq!(newer[0], (2, "second".to_string()));
        assert_eq!(newer.len(), 5);
    });
}

#[test]
fn ids_are_fresh_and_sort_by_time() {
    let a = new_compaction_id();
    let (b, path) = new_checkpoint_entry();
    assert_eq!(a.len(), 36);
    assert!(a.chars().all(|c| c == '-' || c.is_ascii_digit() || ('a'..='f').contains(&c)));
    assert_ne!(a, b);
    assert_eq!(path, format!("_inventory/checkpoint/{b}.full.json"));
}

fn listed(location: &str) -> ListedObject {
    ListedObject { location: location.to_string(), size: 7 }
}

#[test]
fn odd_locations_are_passed_over() {
    let listing = vec![
        listed("_inventory/wal/n"),
        listed("_inventory/wal/n/x.info.json"),
        listed("_inventory/wal/n/99999999999999999999.info.json"),
        listed("_inventory/wal/n/18446744073709551613.info.json.info.json"),
        listed("_inventory/wal/n/18446744073709551615.info.json"),
    ];
    let entries = select_wal_entries(&listing, &NodeMarks::new());
    let found: Vec<(u64, u64)> = entries.iter().map(|e| (e.sequence, e.size)).collect();
    assert_eq!(found, vec![(0, 7), (2, 7)], "without a mark everything is newer");
    let mut marks = NodeMarks::new();
    marks.set("n", 0);
    let entries = select_wal_entries(&listing, &marks);
    assert_eq!(entries.len(), 1, "the mark has reached sequence 0");
    assert_eq!(entries[0].sequence, 2);
    assert!(select_compactions(&vec![listed("")], None).is_empty());
}

#[test]
fn newest_checkpoint_is_the_greatest_path() {
    assert_eq!(newest_checkpoint(&vec![]), None);
    let listing = vec![
        listed("_inventory/checkpoint/019b.full.json"),
        listed("_inventory/checkpoint/019c.full.json"),
        listed("_inventory/checkpoint/019a.full.json"),
    ];
    assert_eq!(newest_checkpoint(&listing), Some(1));
}

fn checkpoint(node: &str, mark: u64, compaction: Option<&str>) -> Checkpoint {
    let mut marks = NodeMarks::new();
    marks.set(node, mark);
    Checkpoint {
        wal_high_water: marks,
        compactions_high_water: compaction.map(|c| c.to_string()),
        merged_snapshot: snap_with("checkpoint", 0, "merged/file.parquet"),
        tombstones: vec![("w/1.parquet".to_string(), 1)],
        compaction_tombstones: vec![("c/2.parquet".to_string(), "019f".to_string())],
    }
}

#[test]
fn load_full_state_combines_everything() {
    let state = LoadedInventory::assemble(
        None,
        vec![snap_with("node-a", 1, "a/1.parquet")],
        vec![("01H".to_string(), snap_with("compactor", 0, "gen2/0.parquet"))],
    );
    assert!(state.checkpoint.is_none());
    assert_eq!(state.wal_snapshots.len(), 1);
    assert_eq!(state.compactions.len(), 1);
    assert_eq!(state.wal_watermarks.get("node-a"), Some(1));
    assert_eq!(state.compaction_watermark.as_deref(), Some("01H"));
    assert!(state.tombstones.is_empty());

    let flat = state.flatten();
    assert_eq!(flat.len(), 2);
    assert_eq!(flat[0].node_id, "node-a");
}

#[test]
fn checkpoint_skips_wal_entries_at_or_below_high_water() {
    block(async {
        let store: Arc<dyn ObjectStore> = Arc::new(InMemory::new());
        for seq in 1..=5 {
            put(&store, &wal_entry("node-a", seq), &format!("a/{seq}.parquet")).await;
        }
        let cp = checkpoint("node-a", 3, None);
        let loaded = load_wal(&store, &cp.wal_high_water).await;
        // Only entries above the mark are left.
        assert_eq!(loaded.len(), 2);
        let snapshots: Vec<PersistedSnapshot> =
            loaded.iter().map(|(seq, path)| snap_with("node-a", *seq, path)).collect();
        let state = LoadedInventory::assemble(Some(cp), snapshots, Vec::new());
        assert!(state.checkpoint.is_some());
        assert_eq!(state.wal_snapshots.len(), 2);
        let kept: Vec<u64> =
            state.wal_snapshots.iter().map(|s| s.snapshot_sequence_number).collect();
        assert_eq!(kept, vec![4, 5]);
        assert_eq!(state.wal_watermarks.get("node-a"), Some(5));
        assert_eq!(state.compaction_watermark, None);
        assert_eq!(state.tombstones, vec![("w/1.parquet".to_string(), 1)]);
        assert_eq!(state.compaction_tombstones.len(), 1);
        assert_eq!(state.flatten().len(), 3);
    });
}

#[test]
fn watermarks_start_from_the_checkpoint() {
    let state = LoadedInventory::assemble(
        Some(checkpoint("node-a", 9, Some("01ABC"))),
        vec![snap_with("node-a", 4, "a"), snap_with("node-b", 2, "b")],
        Vec::new(),
    );
    assert_eq!(state.wal_watermarks.get("node-a"), Some(9));
    assert_eq!(state.wal_watermarks.get("node-b"), Some(2));
    assert_eq!(state.compaction_watermark.as_deref(), Some("01ABC"));
}

/// What is stored of a checkpoint here: its marks, and the path of its one file.
fn encode_checkpoint(cp: &Checkpoint) -> Vec<u8> {
    let mut marks = serde_json::Map::new();
    for (node, mark) in cp.wal_high_water.to_pairs() {
        marks.insert(node, serde_json::Value::from(mark));
    }
    let mut all = serde_json::Map::new();
    all.insert("wal_high_water".to_string(), serde_json::Value::Object(marks));
    all.insert(
        "compactions_high_water".to_string(),
        serde_json::Value::from(cp.compactions_high_water.clone()),
    );
    let path = cp.merged_snapshot.databases[0].files[0].path.clone();
    all.insert("merged".to_string(), serde_json::Value::from(path));
    serde_json::to_vec(&serde_json::Value::Object(all)).unwrap()
}

fn decode_checkpoint(bytes: &[u8]) -> Checkpoint {
    let all: serde_json::Value = serde_json::from_slice(bytes).unwrap();
    let mut marks = NodeMarks::new();
    for (node, mark) in all["wal_high_water"].as_object().unwrap() {
        marks.set(node, mark.as_u64().unwrap());
    }
    Checkpoint {
        wal_high_water: marks,
        compactions_high_water: all["compactions_high_water"].as_str().map(|s| s.to_string()),
        merged_snapshot: snap_with("checkpoint", 0, all["merged"].as_str().unwrap()),
        tombstones: Vec::new(),
        compaction_tombstones: Vec::new(),
    }
}

#[test]
fn checkpoint_round_trip() {
    block(async {
        let store: Arc<dyn ObjectStore> = Arc::new(InMemory::new());
        let mut marks = NodeMarks::new();
        marks.set("node-a", 5);
        let cp = Checkpoint {
            wal_high_water: marks,
            compactions_high_water: Some("01ABC".to_string()),
            merged_snapshot: snap_with("checkpoint", 0, "merged/file.parquet"),
            tombstones: Vec::new(),
            compaction_tombstones: Vec::new(),
        };
        let (_, location) = new_checkpoint_entry();
        let body = Bytes::from(encode_checkpoint(&cp));
        store.put(&Path::from(location), body.into()).await.unwrap();

        let listing = list(&store, "_inventory/checkpoint").await;
        let newest = newest_checkpoint(&listing).unwrap();
        let found = store.get(&Path::from(listing[newest].location.as_str())).await.unwrap();
        let loaded = decode_checkpoint(&found.bytes().await.unwrap());
        assert_eq!(loaded.wal_high_water.get("node-a"), Some(5));
        assert_eq!(loaded.compactions_high_water.as_deref(), Some("01ABC"));
        assert_eq!(loaded.merged_snapshot.databases[0].files[0].path, "merged/file.parquet");
    });
}

#[test]
fn checkpoint_of_tracked_files_restores_them() {
    let mut files = PersistedFiles::new();
    files.add_persisted_snapshot_files(&snap_with("w", 1, "w/a.parquet"));
    files.add_persisted_snapshot_files(&snap_with("w", 2, "w/b.parquet"));
    let mut removal = PersistedSnapshot::new("c".to_string(), 0, 0, 0);
    removal.removed_files = snap_with("x", 0, "w/dbs/1/0/d/h/0000000009.parquet").databases;
    files.add_persisted_compaction_files(&removal, "019f");
    let mut wal = NodeMarks::new();
    wal.set("w", 2);
    let marks = InventoryWatermarks { wal, compaction: Some("019f".to_string()) };
    let cp = inventory_checkpoint(&files, &marks, "compactor-0".to_string(), 6);
    assert_eq!(cp.wal_high_water.get("w"), Some(2));
    assert_eq!(cp.compactions_high_water.as_deref(), Some("019f"));
    assert_eq!(cp.merged_snapshot.node_id, "compactor-0");
    assert_eq!(cp.merged_snapshot.catalog_sequence_number, 6);
    assert!(cp.merged_snapshot.removed_files.is_empty());
    assert_eq!(cp.tombstones, vec![("w/dbs/1/0/d/h/0000000009.parquet".to_string(), 9)]);

    // Starting from it gives the same files, and what was removed early stays out.
    let late = snap_with("w", 9, "w/dbs/1/0/d/h/0000000009.parquet");
    let newer = snap_with("w", 3, "w/c.parquet");
    let state = LoadedInventory::assemble(Some(cp), vec![newer, late], Vec::new());
    let restored = restore(state);
    files.add_persisted_snapshot_files(&snap_with("w", 3, "w/c.parquet"));
    assert_eq!(restored.get_files(1, 0).len(), 3);
    assert_eq!(restored.get_files(1, 0), files.get_files(1, 0));
    assert_eq!(restored.tombstones_for_checkpoint(), files.tombstones_for_checkpoint());
}

#[test]
fn consumer_that_folds_further_still_has_what_it_folded() {
    let early = "019ec200-0000-7000-8000-000000000000";
    let late = "019ec300-0000-7000-8000-000000000000";
    assert!(!heartbeat("q", Some(early), 0).blocks(early, 0, 10));
    assert!(!heartbeat("q", Some(late), 0).blocks(early, 0, 10));
    assert!(heartbeat("q", Some(early), 0).blocks(late, 0, 10));
}

#[test]
fn later_checkpoint_is_the_newest() {
    let earlier = checkpoint_entry("019ec200-0000-7000-8000-000000000000");
    let later = checkpoint_entry("019ec300-0000-7000-8000-000000000000");
    assert_eq!(
        later,
        "_inventory/checkpoint/019ec300-0000-7000-8000-000000000000.full.json"
    );
    assert_eq!(newest_checkpoint(&vec![listed(&later), listed(&earlier)]), Some(0));
    assert_eq!(newest_checkpoint(&vec![listed(&earlier), listed(&later)]), Some(1));
}

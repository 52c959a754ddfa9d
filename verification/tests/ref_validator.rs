use std::sync::Arc;

use futures_util::StreamExt;
use influxdb3_write::files::{ParquetFile, PersistedSnapshot};
use influxdb3_write::persisted_files::PersistedFiles;
use influxdb3_write::ref_validator::{
    data_dir, prefixes_to_list, validate_once, Listing, ValidationSummary,
};
use object_store::memory::InMemory;
use object_store::path::Path;
use object_store::ObjectStore;

fn block<F: std::future::Future>(f: F) -> F::Output {
    tokio::runtime::Builder::new_current_thread().build().unwrap().block_on(f)
}

fn file(id: u64, path: &str) -> ParquetFile {
    ParquetFile {
        id,
        path: path.to_string(),
        size_bytes: 1,
        row_count: 1,
        chunk_time: 0,
        min_time: 0,
        max_time: 1,
    }
}

async fn put(store: &InMemory, path: &str) {
    store.put(&Path::from(path), bytes::Bytes::from_static(b"x").into()).await.unwrap();
}

async fn validate(store: &Arc<dyn ObjectStore>, files: &mut PersistedFiles) -> ValidationSummary {
    let refs = files.snapshot_all();
    let mut listings: Vec<(String, Listing)> = Vec::new();
    for prefix in prefixes_to_list(&refs) {
        let mut paths = Vec::new();
        let mut listing = store.list(Some(&Path::from(data_dir(&prefix))));
        while let Some(item) = listing.next().await {
            paths.push(item.unwrap().location.to_string());
        }
        listings.push((prefix, Some(paths)));
    }
    validate_once(files, &refs, &listings)
}

#[test]
fn evicts_only_missing_refs() {
    block(async {
        let store = InMemory::new();
        put(&store, "node-a/dbs/1/0/f1.parquet").await;
        put(&store, "node-a/dbs/1/0/f2.parquet").await;
        let mut persisted = PersistedFiles::default();
        persisted.add_persisted_file(1, 0, &file(1, "node-a/dbs/1/0/f1.parquet"));
        persisted.add_persisted_file(1, 0, &file(2, "node-a/dbs/1/0/f2.parquet"));
        persisted.add_persisted_file(1, 0, &file(3, "node-a/dbs/1/0/phantom.parquet"));

        let store: Arc<dyn ObjectStore> = Arc::new(store);
        let summary = validate(&store, &mut persisted).await;
        assert_eq!(summary.checked, 3);
        assert_eq!(summary.evicted, 1);
        assert_eq!(summary.skipped, 0);
        let remaining = persisted.get_files(1, 0);
        assert_eq!(remaining.len(), 2);
        assert!(remaining.iter().all(|f| !f.path.contains("phantom")));
    });
}

#[test]
fn handles_multiple_node_prefixes() {
    block(async {
        let store = InMemory::new();
        put(&store, "writer-0/dbs/1/0/w.parquet").await;
        put(&store, "compactor-0/dbs/1/0/c.parquet").await;
        let mut persisted = PersistedFiles::default();
        persisted.add_persisted_file(1, 0, &file(1, "writer-0/dbs/1/0/w.parquet"));
        persisted.add_persisted_file(1, 0, &file(2, "compactor-0/dbs/1/0/c.parquet"));
        persisted.add_persisted_file(1, 0, &file(3, "compactor-0/dbs/1/0/gone.parquet"));

        let store: Arc<dyn ObjectStore> = Arc::new(store);
        let summary = validate(&store, &mut persisted).await;
        assert_eq!(summary.checked, 3);
        assert_eq!(summary.evicted, 1);
        assert_eq!(persisted.get_files(1, 0).len(), 2);
    });
}

#[test]
fn empty_state_is_noop() {
    block(async {
        let store: Arc<dyn ObjectStore> = Arc::new(InMemory::new());
        let mut persisted = PersistedFiles::default();
        let summary = validate(&store, &mut persisted).await;
        assert_eq!(summary, ValidationSummary::default());
    });
}

#[test]
fn failed_listings_evict_nothing() {
    let mut files = PersistedFiles::new();
    files.add_persisted_file(1, 0, &file(1, "a/dbs/1.parquet"));
    files.add_persisted_file(1, 0, &file(2, "b/dbs/2.parquet"));
    files.add_persisted_file(1, 0, &file(3, "c/dbs/3.parquet"));
    let refs = files.snapshot_all();
    let listings =
        vec![("a".to_string(), None), ("b".to_string(), Some(vec!["b/dbs/x".to_string()]))];
    let summary = validate_once(&mut files, &refs, &listings);
    assert_eq!(summary, ValidationSummary { checked: 1, evicted: 1, skipped: 2 });
    assert_eq!(files.get_files(1, 0).len(), 2);
}

#[test]
fn evicted_refs_do_not_come_back() {
    let mut files = PersistedFiles::new();
    files.add_persisted_file(1, 0, &file(1, "a/dbs/1.parquet"));
    let refs = files.snapshot_all();
    validate_once(&mut files, &refs, &vec![("a".to_string(), Some(vec![]))]);
    assert_eq!(files.tombstone_count(), 1);
    let mut again = PersistedSnapshot::new("a".to_string(), 9, 9, 0);
    again.add_parquet_file(1, 0, file(1, "a/dbs/1.parquet"));
    files.add_persisted_snapshot_files(&again);
    assert!(files.get_files(1, 0).is_empty());
}

#[test]
fn prefixes_are_listed_once() {
    let mut files = PersistedFiles::new();
    for (i, p) in ["a/1", "b/2", "a/3", "/4", "plain"].iter().enumerate() {
        files.add_persisted_file(1, i as u32, &file(i as u64, p));
    }
    let mut prefixes = prefixes_to_list(&files.snapshot_all());
    prefixes.sort();
    assert_eq!(prefixes, vec!["a", "b", "plain"]);
    assert_eq!(data_dir("node-a"), "node-a/dbs");
    assert_eq!(data_dir("a|b"), "a%7Cb/dbs");
}

#[test]
fn refs_that_appear_during_a_pass_survive() {
    let mut persisted = PersistedFiles::default();
    persisted.add_persisted_file(1, 0, &file(1, "node-a/dbs/1/0/f1.parquet"));
    let refs = persisted.snapshot_all();
    let listings = vec![("node-a".to_string(), Some(vec!["node-a/dbs/1/0/f1.parquet".to_string()]))];
    // Uploaded and published after the listing.
    persisted.add_persisted_file(1, 0, &file(2, "node-a/dbs/1/0/f2.parquet"));
    let summary = validate_once(&mut persisted, &refs, &listings);
    assert_eq!((summary.checked, summary.evicted), (1, 0));
    assert_eq!(persisted.get_files(1, 0).len(), 2);
}

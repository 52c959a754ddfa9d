use influxdb3_write::leases::StoreFailure;
use influxdb3_write::migrate::{
    after_copy, check_source, copy_step, dest_path, source_dir, CopyStep, MigrateError,
    MigrationTally, SHARED_CATALOG_PREFIX,
};
use influxdb3_write::not_found_tolerant::{
    is_object_store_not_found, tolerate_items, tolerate_open, ErrorLink, FileScan, ScanFailure,
};
use influxdb3_write::provider::{
    FilterPushDown, ProviderBuilder, ScanError, TableSchema, CHUNK_ORDER_COLUMN_NAME,
};
use influxdb3_write::startup_probe::{
    answer_probe, answer_request, head_is_complete, probe_response,
};

#[test]
fn health_paths_return_200_everything_else_503() {
    for path in ["/health", "/api/v1/health", "/ping"] {
        let response = answer_probe(&format!("GET {path} HTTP/1.1\r\nhost: x\r\n\r\n").into_bytes());
        assert!(response.starts_with("HTTP/1.1 200 OK"), "{path}: {response}");
        assert!(response.ends_with("OK"), "{path}: {response}");
    }
    let response = answer_probe(&b"GET /api/v3/query_sql?q=x HTTP/1.1\r\nhost: x\r\n\r\n".to_vec());
    assert!(response.starts_with("HTTP/1.1 503 Service Unavailable"), "{response}");
    let response = answer_probe(&b"POST /health HTTP/1.1\r\nhost: x\r\n\r\n".to_vec());
    assert!(response.starts_with("HTTP/1.1 503 Service Unavailable"), "{response}");
}

#[test]
fn request_lines_are_read_leniently() {
    let ok = |head: &str| answer_request(head).starts_with("HTTP/1.1 200 OK");
    assert!(ok("GET /ping?verbose=true HTTP/1.1\n\n"));
    assert!(ok("  GET\t/ping"));
    assert!(ok("GET\u{3000}/health\r\n"));
    assert!(!ok("GET /pings HTTP/1.1"));
    assert!(!ok("GET"));
    assert!(!ok(""));
    assert!(!ok("\nGET /ping HTTP/1.1"));
    assert!(!ok("get /ping HTTP/1.1"));
    // Bytes that are not UTF-8 are replaced, and match nothing.
    assert!(answer_probe(&b"GET /ping HTTP/1.1\r\nx: \xff\r\n".to_vec()).contains("200 OK"));
    assert!(answer_probe(&b"GET /ping\xff HTTP/1.1\r\n".to_vec()).contains("503"));
}

#[test]
fn responses_have_their_length_in_bytes() {
    assert_eq!(
        probe_response("200 OK", "é"),
        "HTTP/1.1 200 OK\r\ncontent-type: text/plain; charset=utf-8\r\ncontent-length: 2\r\n\
         retry-after: 5\r\nconnection: close\r\n\r\né"
    );
    let busy = answer_request("");
    assert!(busy.contains("content-length: 58\r\n"), "{busy}");
    assert!(busy.ends_with("server is starting: catalog load / WAL replay in progress\n"));
}

#[test]
fn heads_are_read_up_to_the_blank_line() {
    assert!(head_is_complete(&b"GET / HTTP/1.1\r\n\r\nbody".to_vec()));
    assert!(!head_is_complete(&b"GET / HTTP/1.1\r\n".to_vec()));
    assert!(!head_is_complete(&Vec::new()));
    assert!(!head_is_complete(&vec![b'x'; 4095]));
    assert!(head_is_complete(&vec![b'x'; 4096]));
}

#[test]
fn detects_direct_not_found() {
    assert!(is_object_store_not_found(&vec![ErrorLink::ObjectNotFound, ErrorLink::Other]));
}

#[test]
fn detects_not_found_nested_in_generic() {
    // A query error around a cache's error around the store's.
    let chain =
        vec![ErrorLink::Other, ErrorLink::Other, ErrorLink::ObjectNotFound, ErrorLink::Other];
    assert!(is_object_store_not_found(&chain));
}

#[test]
fn ignores_other_errors() {
    assert!(!is_object_store_not_found(&vec![ErrorLink::Other, ErrorLink::Other]));
    assert!(!is_object_store_not_found(&vec![]));
}

fn gone() -> ScanFailure<&'static str> {
    ScanFailure { error: "404", chain: vec![ErrorLink::Other, ErrorLink::ObjectNotFound] }
}

fn boom() -> ScanFailure<&'static str> {
    ScanFailure { error: "boom", chain: vec![ErrorLink::Other] }
}

#[test]
fn mid_stream_not_found_ends_file_early() {
    let batches = tolerate_items(vec![Ok(1), Err(gone()), Ok(2)]);
    assert_eq!(batches.len(), 1, "stops at the mid-stream NotFound");
    assert!(matches!(batches[0], Ok(1)));
    let mut scan = FileScan { stopped: true };
    assert!(scan.next::<u32, &str>(Ok(3)).is_none());
}

#[test]
fn mid_stream_other_error_propagates() {
    let res = tolerate_items(vec![Ok(1), Err(boom()), Ok(2)]);
    assert_eq!(res.len(), 3);
    assert!(matches!(&res[1], Err(e) if e.error == "boom"), "non-NotFound errors still propagate");
}

#[test]
fn missing_files_open_as_empty() {
    assert!(matches!(tolerate_open(Ok::<u32, ScanFailure<&str>>(7)), Ok(Some(7))));
    assert!(matches!(tolerate_open::<u32, &str>(Err(gone())), Ok(None)));
    assert!(matches!(tolerate_open::<u32, &str>(Err(boom())), Err(e) if e.error == "boom"));
}

fn schema() -> TableSchema {
    TableSchema {
        columns: ["field", "tag1", "tag2", "time"].iter().map(|c| c.to_string()).collect(),
        primary_key: ["tag1", "tag2", "time"].iter().map(|c| c.to_string()).collect(),
    }
}

fn columns(list: &[(usize, &str)]) -> Vec<(usize, String)> {
    list.iter().map(|(i, c)| (*i, c.to_string())).collect()
}

fn conjuncts(list: &[&[&str]]) -> Vec<Vec<String>> {
    list.iter().map(|c| c.iter().map(|s| s.to_string()).collect()).collect()
}

#[test]
fn provider_scan_default() {
    let provider =
        ProviderBuilder::new("t".to_string(), schema()).add_chunk(1).add_chunk(2).build().unwrap();
    assert_eq!(provider.table_name(), "t");
    assert_eq!(provider.chunks(), &vec![1, 2]);
    assert!(provider.deduplication());
    assert_eq!(provider.iox_schema().columns.len(), 4);

    // simple plan
    let plan = provider.scan(None, &vec![]).unwrap();
    assert_eq!(
        plan.projection,
        columns(&[(0, "field"), (1, "tag1"), (2, "tag2"), (3, "time")])
    );
    assert_eq!(plan.deduplicate_by, Some(schema().primary_key));
    assert_eq!(plan.filter, None);

    // projection
    let plan = provider.scan(Some(&vec![1, 3]), &vec![]).unwrap();
    assert_eq!(plan.projection, columns(&[(1, "tag1"), (3, "time")]));
    assert_eq!(plan.deduplicate_by, Some(schema().primary_key));

    // filters
    assert_eq!(provider.supports_filters_pushdown(1), vec![FilterPushDown::Exact]);
    let plan = provider.scan(None, &conjuncts(&[&[]])).unwrap();
    assert_eq!(plan.filter, Some(vec![0]));
}

#[test]
fn provider_scan_no_dedup() {
    let provider = ProviderBuilder::new("t".to_string(), schema())
        .add_chunk(1)
        .add_chunk(2)
        .with_enable_deduplication(false)
        .build().unwrap();
    let plan = provider.scan(None, &vec![]).unwrap();
    assert_eq!(plan.deduplicate_by, None);
    assert_eq!(plan.projection.len(), 4);
    let plan = provider.scan(Some(&vec![1, 3]), &vec![]).unwrap();
    assert_eq!(plan.projection, columns(&[(1, "tag1"), (3, "time")]));

    // Expressions on fields are NOT pushed down because they cannot be pushed through de-dup.
    assert_eq!(provider.supports_filters_pushdown(3), vec![FilterPushDown::Inexact; 3]);
    let plan = provider.scan(None, &conjuncts(&[&[], &["tag1"], &["field"]])).unwrap();
    assert_eq!(plan.filter, Some(vec![0, 1]));
    let plan = provider.scan(None, &conjuncts(&[&["tag1", "field"]])).unwrap();
    assert_eq!(plan.filter, None);
}

#[test]
fn provider_scan_retention() {
    let provider =
        ProviderBuilder::new("t".to_string(), schema()).add_chunk(1).add_chunk(2).build().unwrap();
    let plan = provider.scan(None, &conjuncts(&[&["time"]])).unwrap();
    assert_eq!(plan.filter, Some(vec![0]));
    assert_eq!(plan.deduplicate_by, Some(schema().primary_key));
    assert_eq!(provider.supports_filters_pushdown(2), vec![FilterPushDown::Exact; 2]);
    let plan = provider.scan(None, &conjuncts(&[&[], &["time"]])).unwrap();
    assert_eq!(plan.filter, Some(vec![0, 1]));
}

#[test]
fn dedup_needs_a_key() {
    let keyless =
        || TableSchema { columns: vec!["field".to_string()], primary_key: Vec::new() };
    let provider = ProviderBuilder::<u32>::new("t".to_string(), keyless()).build().unwrap();
    assert_eq!(provider.scan(None, &vec![]), Err(ScanError::EmptySortKey));
    let provider = ProviderBuilder::<u32>::new("t".to_string(), keyless())
        .with_enable_deduplication(false)
        .build().unwrap();
    assert!(provider.scan(None, &vec![]).is_ok());
    assert_eq!(CHUNK_ORDER_COLUMN_NAME, "__chunk_order");
}

#[test]
fn migration_copies_by_name() {
    assert_eq!(SHARED_CATALOG_PREFIX, "_catalog");
    assert_eq!(source_dir("node-a"), "node-a/catalogs");
    assert_eq!(
        dest_path("node-a/catalogs/00000000001.catalog"),
        Ok("_catalog/catalogs/00000000001.catalog".to_string())
    );
    assert_eq!(dest_path(""), Err(MigrateError::NoFilename));
    assert_eq!(
        copy_step("n/catalogs/x", true),
        Ok(CopyStep::Report { dest: "_catalog/catalogs/x".to_string() })
    );
    assert_eq!(
        copy_step("n/catalogs/x", false),
        Ok(CopyStep::Copy { dest: "_catalog/catalogs/x".to_string() })
    );
    assert_eq!(check_source("n", 3), Ok(()));
    assert_eq!(
        check_source("n", 0),
        Err(MigrateError::NoObjects { source_dir: "n/catalogs".to_string() })
    );
}

#[test]
fn migration_counts_what_it_did() {
    let mut tally = MigrationTally { copied: 0, skipped_existing: 0 };
    tally = after_copy(tally, Ok(())).unwrap();
    tally = after_copy(tally, Err(StoreFailure::AlreadyExists)).unwrap();
    tally = after_copy(tally, Ok(())).unwrap();
    assert_eq!(tally, MigrationTally { copied: 2, skipped_existing: 1 });
    assert_eq!(
        after_copy(tally, Err(StoreFailure::Other("io".to_string()))),
        Err(MigrateError::Copy(StoreFailure::Other("io".to_string())))
    );
}

#[test]
fn migrating_twice_copies_once() {
    let sources = [("w0/catalogs/a", "one"), ("w0/catalogs/b", "two"), ("w0/catalogs/c", "three")];
    let run = |store: &mut Vec<(String, String)>, dry_run: bool| {
        let mut tally = MigrationTally { copied: 0, skipped_existing: 0 };
        for (location, content) in sources {
            let CopyStep::Copy { dest } = copy_step(location, dry_run).unwrap() else {
                continue;
            };
            let reply = if store.iter().any(|(path, _)| *path == dest) {
                Err(StoreFailure::AlreadyExists)
            } else {
                store.push((dest, content.to_string()));
                Ok(())
            };
            tally = after_copy(tally, reply).unwrap();
        }
        tally
    };
    let held = |path: &str, content: &str| (path.to_string(), content.to_string());
    let mut store = vec![held("_catalog/catalogs/b", "other")];
    assert_eq!(run(&mut store, true), MigrationTally { copied: 0, skipped_existing: 0 });
    assert_eq!(store.len(), 1);
    assert_eq!(run(&mut store, false), MigrationTally { copied: 2, skipped_existing: 1 });
    let once = vec![
        held("_catalog/catalogs/b", "other"),
        held("_catalog/catalogs/a", "one"),
        held("_catalog/catalogs/c", "three"),
    ];
    assert_eq!(store, once);
    assert_eq!(run(&mut store, false), MigrationTally { copied: 0, skipped_existing: 3 });
    assert_eq!(store, once);
}

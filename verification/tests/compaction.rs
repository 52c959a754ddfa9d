use std::collections::HashMap;
use std::sync::Arc;

use bytes::Bytes;
use influxdb3_write::chunk::parse_generation;
use influxdb3_write::compaction_run::{JobAction, JobEvent, JobFailure, JobRun, JobStage};
use influxdb3_write::compaction::{
    after_delete, batches_time_range_and_rows, chunk_time_for_duration, input_orders, BatchTimes,
    CatalogTable, ClaimCall, ClaimReply, ClaimStage, ClaimStep, CompactionConfig, CompactionError,
    CompactionJob, CompactionService, DeleteStep, TimeColumn,
};
use influxdb3_write::duration::Duration;
use influxdb3_write::files::ParquetFile;
use influxdb3_write::leases::{Lease, LeaseConfig, LeaseError, StoreFailure};
use influxdb3_write::persisted_files::PersistedFiles;
use object_store::memory::InMemory;
use object_store::path::Path;
use object_store::{ObjectStore, PutMode, PutOptions};

fn block<F: std::future::Future>(f: F) -> F::Output {
    tokio::runtime::Builder::new_current_thread().build().unwrap().block_on(f)
}

fn file(path: &str, size: u64, rows: u64, min_time: i64, max_time: i64) -> ParquetFile {
    ParquetFile {
        id: 0,
        path: path.to_string(),
        size_bytes: size,
        row_count: rows,
        chunk_time: 0,
        min_time,
        max_time,
    }
}

fn job(files: Vec<ParquetFile>) -> CompactionJob {
    CompactionJob {
        database_id: 3,
        database_name: "sensors".to_string(),
        table_id: 9,
        table_name: "cpu".to_string(),
        source_generation: 1,
        target_generation: 2,
        files,
        sort_key: vec!["time".to_string()],
    }
}

fn service(config: CompactionConfig) -> CompactionService {
    CompactionService::new(config, "c".to_string())
}

fn claimer(ttl: Duration) -> CompactionService {
    service(CompactionConfig { claim_ttl: ttl, ..Default::default() })
}

fn durations(list: &[(u8, u64)]) -> HashMap<u8, Duration> {
    list.iter().map(|(g, n)| (*g, Duration::from_nanos(*n))).collect()
}

#[test]
fn test_compaction_config_default() {
    let config = CompactionConfig::default();
    assert!(config.enabled);
    assert_eq!(config.interval, Duration::from_secs(3600));
    assert_eq!(config.max_files_per_run, 100);
    assert_eq!(config.min_files_for_compaction, 10);
}

#[test]
fn config_default_of_the_rest() {
    let config = CompactionConfig::default();
    assert!(config.generation_durations.is_empty());
    assert_eq!(config.delete_grace, Duration::from_secs(600));
    assert_eq!(config.checkpoint_every_n_cycles, 10);
    assert_eq!(config.claim_ttl, Duration::from_secs(30 * 60));
}

#[test]
fn test_chunk_time_alignment() {
    let dur = Duration::from_secs(60);
    let ns = dur.as_nanos() as i64;
    // 1.5 minutes -> rounded down to 1 minute boundary
    assert_eq!(chunk_time_for_duration(ns + ns / 2, dur), ns);
    assert_eq!(chunk_time_for_duration(0, dur), 0);
}

#[test]
fn chunk_time_rounds_toward_the_epoch() {
    let dur = Duration::from_nanos(60);
    assert_eq!(chunk_time_for_duration(-90, dur), -60);
    assert_eq!(chunk_time_for_duration(-1, dur), 0);
    assert_eq!(chunk_time_for_duration(i64::MIN, Duration::from_nanos(1)), i64::MIN);
    assert_eq!(chunk_time_for_duration(i64::MAX, Duration::from_nanos(2)), i64::MAX - 1);
    assert_eq!(chunk_time_for_duration(17, Duration::from_nanos(0)), 17);
}

fn claim_failure(e: object_store::Error) -> StoreFailure {
    match e {
        object_store::Error::AlreadyExists { .. } => StoreFailure::AlreadyExists,
        object_store::Error::NotFound { .. } => StoreFailure::NotFound,
        other => StoreFailure::Other(other.to_string()),
    }
}

/// Drives an attempt to claim against a real store.
async fn claim(store: &Arc<dyn ObjectStore>, path: &Path, now: i64, ttl: Duration) -> bool {
    let svc = claimer(ttl);
    let mut stage = ClaimStage::Create;
    let mut call = ClaimCall::Create { acquired_at_unix_ms: now };
    loop {
        let reply = match call {
            ClaimCall::Create { acquired_at_unix_ms } => ClaimReply::Written(
                store
                    .put_opts(
                        path,
                        Bytes::from(acquired_at_unix_ms.to_string()).into(),
                        PutOptions::from(PutMode::Create),
                    )
                    .await
                    .map(|_| ())
                    .map_err(claim_failure),
            ),
            ClaimCall::Put { acquired_at_unix_ms } => ClaimReply::Written(
                store
                    .put(path, Bytes::from(acquired_at_unix_ms.to_string()).into())
                    .await
                    .map(|_| ())
                    .map_err(claim_failure),
            ),
            ClaimCall::Read => {
                let bytes = store.get(path).await.unwrap().bytes().await.unwrap();
                let text = String::from_utf8(bytes.to_vec()).unwrap();
                ClaimReply::Claim(Ok(text.parse().unwrap()))
            }
        };
        match svc.acquire_claim(stage, now, reply) {
            ClaimStep::Call(next_stage, next_call) => {
                stage = next_stage;
                call = next_call;
            }
            ClaimStep::Held => return true,
            ClaimStep::Refused => return false,
            ClaimStep::Failed(e) => panic!("claim failed: {e:?}"),
        }
    }
}

#[test]
fn per_table_claim_blocks_concurrent_worker() {
    block(async {
        let store: Arc<dyn ObjectStore> = Arc::new(InMemory::new());
        let path = Path::from("_compactor/claims/1-1-gen1-to-gen2.claim");
        let ttl = Duration::from_secs(60);
        assert!(claim(&store, &path, 0, ttl).await);
        assert!(
            !claim(&store, &path, 0, ttl).await,
            "second worker should be blocked while claim is fresh"
        );
        store.delete(&path).await.unwrap();
        assert!(claim(&store, &path, 0, ttl).await);
    });
}

#[test]
fn stale_claim_is_taken_over() {
    block(async {
        let store: Arc<dyn ObjectStore> = Arc::new(InMemory::new());
        let path = Path::from("_compactor/claims/1-1-gen1-to-gen2.claim");
        let ttl = Duration::from_secs(60);
        assert!(claim(&store, &path, 1_000, ttl).await);
        assert!(!claim(&store, &path, 60_999, ttl).await);
        assert!(claim(&store, &path, 61_000, ttl).await);
        // The takeover made the claim fresh again.
        assert!(!claim(&store, &path, 61_001, ttl).await);
        // A claim from the future is fresh.
        assert!(!claim(&store, &path, 0, ttl).await);
    });
}

#[test]
fn claim_without_conditional_puts_and_failures() {
    let svc = claimer(Duration::from_secs(60));
    let not_supported = ClaimReply::Written(Err(StoreFailure::NotSupported));
    assert_eq!(
        svc.acquire_claim(ClaimStage::Create, 5, not_supported),
        ClaimStep::Call(ClaimStage::ReadUnguarded, ClaimCall::Read)
    );
    // A fresh claim is kept; a stale one, or none, is written over.
    let put = |now: i64| {
        ClaimStep::Call(ClaimStage::Put, ClaimCall::Put { acquired_at_unix_ms: now })
    };
    let found = |at: i64| ClaimReply::Claim(Ok(at));
    assert_eq!(svc.acquire_claim(ClaimStage::ReadUnguarded, 60_004, found(5)), ClaimStep::Refused);
    assert_eq!(svc.acquire_claim(ClaimStage::ReadUnguarded, 60_005, found(5)), put(60_005));
    let none = ClaimReply::Claim(Err(LeaseError::ObjectStore(StoreFailure::NotFound)));
    assert_eq!(svc.acquire_claim(ClaimStage::ReadUnguarded, 5, none), put(5));
    let denied = LeaseError::ObjectStore(StoreFailure::Precondition);
    assert_eq!(
        svc.acquire_claim(ClaimStage::ReadUnguarded, 5, ClaimReply::Claim(Err(denied))),
        ClaimStep::Failed(LeaseError::ObjectStore(StoreFailure::Precondition))
    );
    assert_eq!(
        svc.acquire_claim(ClaimStage::Put, 5, ClaimReply::Written(Ok(()))),
        ClaimStep::Held
    );
    assert_eq!(
        svc.acquire_claim(ClaimStage::Create, 5, ClaimReply::Written(Err(StoreFailure::NotFound))),
        ClaimStep::Failed(LeaseError::ObjectStore(StoreFailure::NotFound))
    );
    let unreadable = ClaimReply::Claim(Err(LeaseError::SerdeJson("eof".to_string())));
    assert_eq!(
        svc.acquire_claim(ClaimStage::Read, 5, unreadable),
        ClaimStep::Failed(LeaseError::SerdeJson("eof".to_string()))
    );
    assert_eq!(
        svc.acquire_claim(ClaimStage::Read, 5, ClaimReply::Written(Ok(()))),
        ClaimStep::Failed(LeaseError::UnexpectedReply)
    );
}

#[test]
fn generations_of_files() {
    let svc = service(CompactionConfig::default());
    assert_eq!(svc.get_file_generation(&file("w/dbs/1/2/0000000001.parquet", 0, 0, 0, 0)), Ok(1));
    assert_eq!(svc.get_file_generation(&file("c/gen4/x.parquet", 0, 0, 0, 0)), Ok(4));
    assert_eq!(
        svc.get_file_generation(&file("c/gen6/x.parquet", 0, 0, 0, 0)),
        Err(CompactionError::InvalidGeneration {
            generation: 6,
            path: "c/gen6/x.parquet".to_string()
        })
    );
    assert_eq!(
        svc.get_file_generation(&file("c/gen256/x.parquet", 0, 0, 0, 0)),
        Err(CompactionError::UnreadableGeneration { path: "c/gen256/x.parquet".to_string() })
    );
    // A name that only starts like a generation is no reason to fail.
    assert_eq!(svc.get_file_generation(&file("c/genesis/x.parquet", 0, 0, 0, 0)), Ok(1));
    assert_eq!(
        svc.get_file_generation(&file("h/dbs/genomics-1/t-2/gen3/d/h/x.parquet", 0, 0, 0, 0)),
        Ok(3)
    );
    assert_eq!(svc.get_next_generation(1), Some(2));
    assert_eq!(svc.get_next_generation(4), Some(5));
    assert_eq!(svc.get_next_generation(5), None);
}

fn table(files: Vec<ParquetFile>) -> CatalogTable {
    CatalogTable {
        database_id: 3,
        database_name: "sensors".to_string(),
        database_deleted: false,
        table_id: 9,
        table_name: "cpu".to_string(),
        table_deleted: false,
        sort_key: vec!["time".to_string()],
        files,
    }
}

#[test]
fn jobs_for_generations_that_are_due() {
    let config = CompactionConfig {
        min_files_for_compaction: 2,
        generation_durations: durations(&[(2, 10), (3, 1_000)]),
        ..Default::default()
    };
    let files = vec![
        file("w/1.parquet", 0, 0, 0, 4),
        file("c/gen2/a.parquet", 0, 0, 0, 9),
        file("w/2.parquet", 0, 0, 5, 10),
        file("c/gen2/b.parquet", 0, 0, 9, 12),
        file("c/gen5/e.parquet", 0, 0, 0, 9_000),
        file("c/gen5/f.parquet", 0, 0, 0, 9_000),
    ];
    let jobs = service(config).identify_compaction_jobs(&vec![table(files)]).unwrap();
    assert_eq!(jobs.len(), 1, "generation 2 spans too little, 5 has no next");
    assert_eq!(jobs[0].source_generation, 1);
    assert_eq!(jobs[0].target_generation, 2);
    let paths: Vec<&str> = jobs[0].files.iter().map(|f| f.path.as_str()).collect();
    assert_eq!(paths, vec!["w/1.parquet", "w/2.parquet"]);
    assert_eq!(jobs[0].table_name, "cpu");
    assert_eq!(jobs[0].sort_key, vec!["time".to_string()]);
}

#[test]
fn deleted_and_small_tables_are_passed_over() {
    let config = CompactionConfig {
        min_files_for_compaction: 2,
        generation_durations: durations(&[(2, 0)]),
        ..Default::default()
    };
    let files = || vec![file("w/1.parquet", 0, 0, 0, 1), file("w/2.parquet", 0, 0, 0, 1)];
    let mut dropped = table(files());
    dropped.table_deleted = true;
    let mut in_dropped = table(files());
    in_dropped.database_deleted = true;
    // A bad path in a table that is not looked at does no harm.
    dropped.files.push(file("c/gen9/x.parquet", 0, 0, 0, 1));
    let small = table(vec![file("c/gen9/x.parquet", 0, 0, 0, 1)]);
    let svc = service(config);
    let jobs = svc.identify_compaction_jobs(&vec![dropped, in_dropped, small]).unwrap();
    assert!(jobs.is_empty());

    let mut bad = table(files());
    bad.files.push(file("c/gen9/x.parquet", 0, 0, 0, 1));
    assert_eq!(
        svc.identify_compaction_jobs(&vec![table(files()), bad]).err(),
        Some(CompactionError::InvalidGeneration {
            generation: 9,
            path: "c/gen9/x.parquet".to_string()
        })
    );
}

#[test]
fn span_of_extreme_times() {
    let svc = service(CompactionConfig { min_files_for_compaction: 1, ..Default::default() });
    let wide = vec![file("a", 0, 0, i64::MIN, i64::MAX)];
    assert!(svc.can_compact_to_generation(&wide, Duration::from_nanos(u64::MAX)));
    let inverted = vec![file("a", 0, 0, 10, 3)];
    assert!(!svc.can_compact_to_generation(&inverted, Duration::from_nanos(1)));
    assert!(svc.can_compact_to_generation(&inverted, Duration::from_nanos(0)));
}

#[test]
fn compacted_paths_and_claims() {
    // 2026-05-07 13:35 UTC.
    let t = 1_778_160_900_000_000_000i64;
    let j = job(Vec::new());
    assert_eq!(
        CompactionService::new(CompactionConfig::default(), "compactor-0".to_string())
            .compacted_file_path(&j, 2, t, "019ec5ca"),
        "compactor-0/dbs/sensors-3/cpu-9/gen2/2026-05-07/13-35/019ec5ca.parquet"
    );
    let svc = service(CompactionConfig::default());
    assert_eq!(svc.claim_path(&j), "_compactor/claims/3-9-gen1-to-gen2.claim");
    let path = svc.compacted_file_path(&j, 3, t, "019ec5ca");
    assert_eq!(parse_generation(&path), Some(3));
    // Whatever its database and its table are called.
    let mut named = job(Vec::new());
    named.database_name = "gen4".to_string();
    named.table_name = "gen".to_string();
    assert_eq!(parse_generation(&svc.compacted_file_path(&named, 3, t, "019ec5ca")), Some(3));
    // Unless a slash makes a directory of the name.
    let mut misleading = job(Vec::new());
    misleading.table_name = "gen4/x".to_string();
    assert_eq!(parse_generation(&svc.compacted_file_path(&misleading, 3, t, "019ec5ca")), Some(4));
    let mut odd = job(Vec::new());
    odd.database_name = "a*b".to_string();
    assert_eq!(
        svc.compacted_file_path(&odd, 2, 0, "x"),
        "c/dbs/a%2Ab-3/cpu-9/gen2/1970-01-01/00-00/x.parquet"
    );
}

#[test]
fn job_needs_a_sort_key() {
    let j = job(Vec::new());
    let svc = service(CompactionConfig::default());
    let (run, path, call) = svc.execute_compaction_job(j, 7).unwrap();
    assert!(matches!(run.stage, JobStage::Claiming(ClaimStage::Create)));
    assert_eq!(run.started_at_unix_ms, 7);
    assert_eq!(path, "_compactor/claims/3-9-gen1-to-gen2.claim");
    assert_eq!(call, ClaimCall::Create { acquired_at_unix_ms: 7 });
    let mut unsorted = job(Vec::new());
    unsorted.sort_key.clear();
    assert_eq!(
        svc.execute_compaction_job(unsorted, 7).err(),
        Some(CompactionError::EmptySortKey { table: "cpu".to_string() })
    );
}

fn batch(num_rows: u64, first: i64, last: i64) -> BatchTimes {
    BatchTimes { num_rows, time: TimeColumn::Nanoseconds { first, last } }
}

#[test]
fn time_range_of_batches() {
    assert_eq!(
        batches_time_range_and_rows(&vec![batch(2, 30, 40), batch(1, 20, 10)]),
        Ok((10, 40, 3))
    );
    assert_eq!(
        batches_time_range_and_rows(&vec![BatchTimes { num_rows: 0, time: TimeColumn::Empty }]),
        Err(CompactionError::NoRows)
    );
    assert_eq!(
        batches_time_range_and_rows(&vec![
            batch(1, 0, 0),
            BatchTimes { num_rows: 1, time: TimeColumn::Missing },
            BatchTimes { num_rows: 1, time: TimeColumn::OtherType },
        ]),
        Err(CompactionError::NoTimeColumn)
    );
    assert_eq!(
        batches_time_range_and_rows(&vec![BatchTimes { num_rows: 1, time: TimeColumn::OtherType }]),
        Err(CompactionError::TimeColumnType)
    );
}

#[test]
fn output_of_a_job() {
    let svc = service(CompactionConfig {
        generation_durations: durations(&[(2, 60)]),
        ..Default::default()
    });
    let j = job(Vec::new());
    let out = svc
        .write_compacted_file(&j, &vec![batch(0, 1, 1), batch(3, 130, 170)], "id")
        .unwrap()
        .unwrap();
    assert_eq!((out.min_time, out.max_time, out.row_count, out.chunk_time), (130, 170, 3, 120));
    assert_eq!(out.path, "c/dbs/sensors-3/cpu-9/gen2/1970-01-01/00-00/id.parquet");
    let f = out.into_file(8, 512);
    assert_eq!((f.id, f.size_bytes, f.row_count), (8, 512, 3));

    assert_eq!(svc.write_compacted_file(&j, &vec![batch(0, 1, 1)], "id"), Ok(None));
    assert_eq!(
        service(CompactionConfig::default()).write_compacted_file(&j, &vec![batch(1, 1, 1)], "id"),
        Err(CompactionError::NoDuration { generation: 2 })
    );
}

/// The pure part of a compaction from gen1 inputs to a published gen2 file.
#[test]
fn compaction_publishes_and_replaces_files() {
    let config = CompactionConfig {
        enabled: true,
        interval: Duration::from_secs(1),
        max_files_per_run: 10,
        min_files_for_compaction: 2,
        generation_durations: durations(&[(1, 1), (2, 1)]),
        delete_grace: Duration::from_secs(0),
        checkpoint_every_n_cycles: 0,
        claim_ttl: Duration::from_secs(60),
    };
    let svc = CompactionService::new(config, "test-host".to_string());
    let mut known = PersistedFiles::new();
    for (i, ts) in [10i64, 20, 30, 40, 50].iter().enumerate() {
        let path = format!("test-host/dbs/3/9/1970-01-01/00-00/{:010}.parquet", i + 1);
        known.add_persisted_file(3, 9, &file(&path, 100, 1, *ts, *ts));
    }
    let jobs =
        svc.identify_compaction_jobs(&vec![table(known.get_files(3, 9))]).unwrap();
    assert_eq!(jobs.len(), 1, "expected one compaction job");
    let j = &jobs[0];
    let input_paths: Vec<String> = j.files.iter().map(|f| f.path.clone()).collect();
    let input_rows: u64 = j.files.iter().map(|f| f.row_count).sum();

    let out = svc
        .write_compacted_file(j, &vec![batch(input_rows, 10, 50)], "0001")
        .unwrap()
        .unwrap();
    let new_file = out.into_file(99, 150);
    assert!(new_file.path.contains("/gen2/"), "output path should be in gen2: {}", new_file.path);
    let manifest = svc.publish_compaction(4, j, &vec![new_file.duplicate()], &j.files);
    assert_eq!(manifest.node_id, "test-host");
    assert_eq!(manifest.removed_files.len(), 1);
    assert_eq!(manifest.removed_files[0].files.len(), input_paths.len());
    assert_eq!(manifest.catalog_sequence_number, 4);
    assert_eq!(manifest.wal_file_sequence_number, 0);

    let result = svc.finish_compaction_job(j, Some(new_file.duplicate()));
    assert_eq!(result.compacted_files.len(), 1, "expected one output file");
    assert_eq!(result.total_rows_compacted, input_rows, "rows should be preserved");
    assert_eq!(result.total_size_reduction, 350);
    assert_eq!(result.deleted_files.len(), 5);

    svc.apply_compaction(&mut known, j, &vec![new_file.duplicate()], &j.files);
    let after: Vec<String> = known.get_files(3, 9).iter().map(|f| f.path.clone()).collect();
    assert_eq!(after, vec![new_file.path.clone()]);
    assert_eq!(known.get_metrics().0, 1);

    // A peer that folds the manifests sees the same.
    let mut wal = influxdb3_write::files::PersistedSnapshot::new("test-host".to_string(), 1, 1, 4);
    for f in &j.files {
        wal.add_parquet_file(3, 9, f.duplicate());
    }
    let replayed = PersistedFiles::new_from_persisted_snapshots(&vec![wal, manifest]);
    let replayed_paths: Vec<String> =
        replayed.get_files(3, 9).iter().map(|f| f.path.clone()).collect();
    assert_eq!(replayed_paths, after);
}

fn claimed(svc: &CompactionService, known: &mut PersistedFiles) -> JobRun {
    let j = job(known.get_files(3, 9));
    let (run, _, _) = svc.execute_compaction_job(j, 7).unwrap();
    let (run, action) =
        svc.resume_job(run, JobEvent::Claim(ClaimReply::Written(Ok(()))), true, known);
    assert!(matches!(action, JobAction::Merge));
    run
}

fn uploaded(size: u64) -> JobEvent {
    JobEvent::Uploaded { outcome: Ok((99, size)), catalog_sequence_number: 4 }
}

fn two_inputs() -> PersistedFiles {
    let mut known = PersistedFiles::new();
    known.add_persisted_file(3, 9, &file("w/dbs/a/0000000001.parquet", 100, 1, 10, 10));
    known.add_persisted_file(3, 9, &file("w/dbs/a/0000000002.parquet", 100, 1, 20, 20));
    known
}

fn two_generations() -> CompactionService {
    service(CompactionConfig { generation_durations: durations(&[(2, 60)]), ..Default::default() })
}

#[test]
fn job_publishes_before_it_deletes() {
    let svc = two_generations();
    let mut known = two_inputs();
    let run = claimed(&svc, &mut known);
    let merged = JobEvent::Merged(Ok(vec![batch(2, 10, 20)]));
    let (run, action) = svc.resume_job(run, merged, true, &mut known);
    let JobAction::Upload { path } = action else { panic!("expected an upload") };
    assert!(path.starts_with("c/dbs/sensors-3/cpu-9/gen2/1970-01-01/00-00/"), "{path}");
    let (run, action) = svc.resume_job(run, uploaded(150), true, &mut known);
    let JobAction::Persist { compaction_id, manifest } = action else {
        panic!("expected a manifest")
    };
    assert_eq!(path, format!("c/dbs/sensors-3/cpu-9/gen2/1970-01-01/00-00/{compaction_id}.parquet"));
    assert_eq!(manifest.databases[0].files[0].path, path);
    assert_eq!(manifest.removed_files[0].files.len(), 2);
    assert_eq!(known.get_files(3, 9).len(), 2, "nothing changes before the manifest is durable");
    let (run, action) = svc.resume_job(run, JobEvent::Persisted(Ok(())), true, &mut known);
    let JobAction::Publish { compaction_id: shared_as, manifest: shared } = action else {
        panic!("expected to share the manifest")
    };
    assert_eq!(shared_as, compaction_id);
    assert_eq!(shared.databases[0].files[0].path, path);
    let (run, action) = svc.resume_job(run, JobEvent::Published, true, &mut known);
    let JobAction::End { outcome: Ok(result), release_claim } = action else {
        panic!("expected the end")
    };
    assert!(release_claim);
    assert_eq!(result.deleted_files.len(), 2);
    assert_eq!(result.total_size_reduction, 50);
    let paths: Vec<String> = known.get_files(3, 9).iter().map(|f| f.path.clone()).collect();
    assert_eq!(paths, vec![path]);
    // The claim is released once.
    let (_, action) = svc.resume_job(run, JobEvent::Published, true, &mut known);
    assert!(matches!(
        action,
        JobAction::End { outcome: Err(JobFailure::UnexpectedEvent), release_claim: false }
    ));
}

#[test]
fn job_without_inventory_ends_once_durable() {
    let svc = two_generations();
    let mut known = two_inputs();
    let run = claimed(&svc, &mut known);
    let merged = JobEvent::Merged(Ok(vec![batch(2, 10, 20)]));
    let (run, _) = svc.resume_job(run, merged, false, &mut known);
    let (run, _) = svc.resume_job(run, uploaded(300), false, &mut known);
    let (_, action) = svc.resume_job(run, JobEvent::Persisted(Ok(())), false, &mut known);
    let JobAction::End { outcome: Ok(result), .. } = action else { panic!("expected the end") };
    assert_eq!(result.total_size_reduction, 0);
    assert_eq!(known.get_files(3, 9).len(), 1);
}

#[test]
fn failed_job_leaves_inputs_in_place() {
    let svc = two_generations();
    let mut known = two_inputs();
    let boom = || "boom".to_string();

    // Merging fails.
    let run = claimed(&svc, &mut known);
    let (_, action) = svc.resume_job(run, JobEvent::Merged(Err(boom())), true, &mut known);
    assert!(matches!(
        action,
        JobAction::End { outcome: Err(JobFailure::Outside(_)), release_claim: true }
    ));

    // No rows: nothing is written, and nothing deleted.
    let run = claimed(&svc, &mut known);
    let (_, action) = svc.resume_job(run, JobEvent::Merged(Ok(Vec::new())), true, &mut known);
    let JobAction::End { outcome: Ok(result), release_claim: true } = action else {
        panic!("expected the end")
    };
    assert!(result.deleted_files.is_empty());

    // Rows that cannot be written.
    let run = claimed(&svc, &mut known);
    let untimed = vec![BatchTimes { num_rows: 1, time: TimeColumn::Missing }];
    let (_, action) = svc.resume_job(run, JobEvent::Merged(Ok(untimed)), true, &mut known);
    assert!(matches!(
        action,
        JobAction::End {
            outcome: Err(JobFailure::Output(CompactionError::NoTimeColumn)),
            release_claim: true
        }
    ));

    // The manifest does not become durable.
    let run = claimed(&svc, &mut known);
    let merged = JobEvent::Merged(Ok(vec![batch(2, 10, 20)]));
    let (run, _) = svc.resume_job(run, merged, true, &mut known);
    let (run, _) = svc.resume_job(run, uploaded(150), true, &mut known);
    let (_, action) = svc.resume_job(run, JobEvent::Persisted(Err(boom())), true, &mut known);
    assert!(matches!(action, JobAction::End { outcome: Err(_), release_claim: true }));

    // The claim is taken, or cannot be settled: there is none to release.
    let (run, _, _) = svc.execute_compaction_job(job(Vec::new()), 7).unwrap();
    let taken = ClaimReply::Written(Err(StoreFailure::AlreadyExists));
    let (run, action) = svc.resume_job(run, JobEvent::Claim(taken), true, &mut known);
    assert!(matches!(action, JobAction::Claim(ClaimCall::Read)));
    let fresh = ClaimReply::Claim(Ok(7));
    let (_, action) = svc.resume_job(run, JobEvent::Claim(fresh), true, &mut known);
    assert!(matches!(action, JobAction::End { outcome: Ok(_), release_claim: false }));
    let (run, _, _) = svc.execute_compaction_job(job(Vec::new()), 7).unwrap();
    let broken = ClaimReply::Written(Err(StoreFailure::Precondition));
    let (_, action) = svc.resume_job(run, JobEvent::Claim(broken), true, &mut known);
    assert!(matches!(
        action,
        JobAction::End { outcome: Err(JobFailure::Claim(_)), release_claim: false }
    ));

    assert_eq!(known.get_files(3, 9).len(), 2);
}

#[test]
fn job_without_output_changes_nothing() {
    let j = job(vec![file("w/1.parquet", 100, 1, 0, 1)]);
    let svc = service(CompactionConfig::default());
    let result = svc.finish_compaction_job(&j, None);
    assert!(result.compacted_files.is_empty() && result.deleted_files.is_empty());
    assert_eq!((result.total_size_reduction, result.total_rows_compacted), (0, 0));
    // Output larger than the input is no reduction.
    let larger = svc.finish_compaction_job(&j, Some(file("o", 150, 1, 0, 1)));
    assert_eq!(larger.total_size_reduction, 0);
}

#[test]
fn deletes_are_retried_with_growing_waits() {
    let failed = Err(StoreFailure::Other("boom".to_string()));
    let mut retry = 0;
    let mut waits = Vec::new();
    loop {
        match after_delete(retry, &failed) {
            DeleteStep::Done => panic!("not deleted"),
            DeleteStep::Retry { retry: next, delay } => {
                waits.push(delay.as_secs());
                retry = next;
            }
            DeleteStep::GiveUp { delay } => {
                waits.push(delay.as_secs());
                break;
            }
        }
    }
    assert_eq!(waits, vec![2, 4, 6, 8, 10, 12]);
    assert_eq!(after_delete(3, &Ok(())), DeleteStep::Done);
    assert_eq!(after_delete(3, &Err(StoreFailure::NotFound)), DeleteStep::Done);
}

#[test]
fn cycles_are_bounded_and_checkpointed() {
    let svc = service(CompactionConfig { max_files_per_run: 3, ..Default::default() });
    assert_eq!(svc.config().max_files_per_run, 3);
    let plan = svc.plan_cycle(&vec![1, 2, 1, 1, 1]);
    assert_eq!((plan.run, plan.concurrent), (2, 4), "three files fit");
    let plan = svc.plan_cycle(&vec![1, 1]);
    assert_eq!((plan.run, plan.concurrent), (2, 2));
    let plan = svc.plan_cycle(&vec![2, 2, 1]);
    assert_eq!((plan.run, plan.concurrent), (1, 3));
    // The first job runs, however many files it has.
    let plan = svc.plan_cycle(&vec![4, 1]);
    assert_eq!((plan.run, plan.concurrent), (1, 2));
    let plan = svc.plan_cycle(&vec![3, 0, 1]);
    assert_eq!((plan.run, plan.concurrent), (2, 3));
    assert_eq!(svc.plan_cycle(&Vec::new()).run, 0);
    let by_default = service(CompactionConfig::default());
    assert_eq!(by_default.plan_cycle(&vec![536, 12]).run, 1);
    assert_eq!(by_default.plan_cycle(&vec![88, 12, 1]).run, 2);
    let none = service(CompactionConfig { max_files_per_run: 0, ..Default::default() });
    assert_eq!(none.plan_cycle(&vec![536, 12]).run, 0);

    let mut every_other =
        service(CompactionConfig { checkpoint_every_n_cycles: 2, ..Default::default() });
    assert!(!every_other.count_cycle(false), "not counted");
    assert!(!every_other.count_cycle(true));
    assert!(every_other.count_cycle(true));
    assert!(!every_other.count_cycle(true));
    let mut never =
        service(CompactionConfig { checkpoint_every_n_cycles: 0, ..Default::default() });
    assert!(!never.count_cycle(true));
}

#[test]
fn inputs_are_ordered_as_they_stand() {
    assert_eq!(input_orders(3), vec![0, 1, 2]);
    assert!(input_orders(0).is_empty());
}

#[test]
fn cycles_are_gated_on_the_lease() {
    let svc = service(CompactionConfig::default());
    assert!(svc.may_run_cycle(None, 0));
    let lease = Lease::new(LeaseConfig::new(
        "_locks/compactor.lease".to_string(),
        "c".to_string(),
        Duration::from_secs(60),
    ));
    assert!(!svc.may_run_cycle(Some(&lease), 0));
    let disabled = service(CompactionConfig { enabled: false, ..Default::default() });
    assert!(!disabled.may_run_cycle(None, 0));
}

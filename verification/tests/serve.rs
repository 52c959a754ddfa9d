use std::collections::HashMap;

use influxdb3_write::duration::Duration;
use influxdb3_write::leases::Outcome;
use influxdb3_write::serve::{
    admin_token_hash, build_malloc_conf, check_tls_files, compaction_config, determine_package_manager,
    endpoint_policy, fail_cluster_id, insecure_permissions, lease_wait_limit, lease_wait_step,
    parse_snapshot_concurrency_limit, parse_writers, plan_services, query_threads,
    remote_targets, set_generation_duration_with_error_handling, settle_admin_token, snapshots_to_load_on_start,
    table_index_cache_entries, tail_writers, wal_replay_concurrency_limit,
    wal_replay_concurrency_limit_default, DurationReply, LeaseWait, NodeId, NodeMode,
    PackageManager, ServeError, ServeSettings, ServerAction, ServerEvent, ServerLoop,
    TlsMinimumVersion, TokenReply,
};

fn strings(list: &[&str]) -> Vec<String> {
    list.iter().map(|s| s.to_string()).collect()
}

fn settings(mode: NodeMode) -> ServeSettings {
    ServeSettings {
        mode,
        has_cert: false,
        has_key: false,
        shared_catalog: None,
        writer_lease_ttl: Duration::from_secs(60),
        compactor_lease_ttl: Duration::from_secs(30),
        ref_validation_interval: Duration::from_secs(1),
        inventory_poll_interval: Duration::from_secs(1),
        wal_tail_poll_interval: Duration::from_secs(1),
        writers: Vec::new(),
        writer_node_ids: strings(&[" w1 ", "", "w2"]),
        writer_urls: strings(&["http://w1 ", "  "]),
        enable_compaction: true,
        compaction_interval: Duration::from_secs(7),
        max_compaction_files: 8,
        min_files_for_compaction: 9,
        compaction_delete_grace: Duration::from_secs(10),
    }
}

#[test]
fn modes_and_their_roles() {
    for (mode, ingest, compaction, query) in [
        (NodeMode::All, true, true, true),
        (NodeMode::Writer, true, false, true),
        (NodeMode::Compactor, false, true, false),
        (NodeMode::Querier, false, false, true),
    ] {
        assert_eq!(mode.runs_ingest(), ingest);
        assert_eq!(mode.runs_compaction(), compaction);
        assert_eq!(mode.runs_query(), query);
        let policy = endpoint_policy(mode);
        assert_eq!((policy.allow_write, policy.allow_query), (ingest, query));
        assert_eq!(policy.allow_internal_rpc, ingest);
    }
}

#[test]
fn replay_concurrency() {
    assert_eq!(wal_replay_concurrency_limit(4), 10);
    assert_eq!(wal_replay_concurrency_limit(32), 32);
    let limit: usize = wal_replay_concurrency_limit_default().parse().unwrap();
    assert_eq!(limit, wal_replay_concurrency_limit(num_cpus::get()));
}

#[test]
fn snapshot_concurrency_limits() {
    assert_eq!(parse_snapshot_concurrency_limit("5"), Ok(5));
    assert_eq!(parse_snapshot_concurrency_limit("+5"), Ok(5));
    assert_eq!(
        parse_snapshot_concurrency_limit("0"),
        Err("snapshot concurrency limit must be greater than 0".to_string())
    );
    assert_eq!(
        parse_snapshot_concurrency_limit(""),
        Err("cannot parse integer from empty string".to_string())
    );
    assert_eq!(
        parse_snapshot_concurrency_limit("x"),
        Err("invalid digit found in string".to_string())
    );
}

#[test]
fn cluster_id_is_refused() {
    let e = fail_cluster_id("c").unwrap_err();
    assert!(e.starts_with("You've incorrectly specified a cluster-id for InfluxDB 3 Core OSS.\n\n"));
    assert!(e.contains("Enterprise parameter. \nDid you install"));
    assert!(e.ends_with("Remove --cluster-id to run InfluxDB 3 Core OSS."));
}

#[test]
fn node_ids() {
    let by_prefix = NodeId { prefix: Some("n".to_string()), from_env_var: None };
    assert_eq!(by_prefix.env_var(), None);
    assert_eq!(by_prefix.get_node_id(Some("x".to_string())), Ok("n".to_string()));
    let by_env = NodeId { prefix: None, from_env_var: Some("HOST".to_string()) };
    assert_eq!(by_env.env_var(), Some(&"HOST".to_string()));
    assert_eq!(by_env.get_node_id(Some("h1".to_string())), Ok("h1".to_string()));
    assert_eq!(
        by_env.get_node_id(None),
        Err(ServeError::NodeIdEnvVarMissing("HOST".to_string()))
    );
}

#[test]
fn tls_versions() {
    assert_eq!(TlsMinimumVersion::from_str("tls-1.2"), Ok(TlsMinimumVersion::Tls1_2));
    assert_eq!(TlsMinimumVersion::from_str("tls-1.3"), Ok(TlsMinimumVersion::Tls1_3));
    assert_eq!(
        TlsMinimumVersion::from_str("tls-1.1"),
        Err("Valid minimum version strings are tls-1.2 and tls-1.3".to_string())
    );
    assert!(TlsMinimumVersion::default().allows_1_2());
    assert!(!TlsMinimumVersion::Tls1_3.allows_1_2());
    assert_eq!(check_tls_files(true, true), Ok(()));
    assert_eq!(check_tls_files(false, false), Ok(()));
    assert_eq!(check_tls_files(true, false), Err(ServeError::NoCertOrKeyFile));
}

#[test]
fn generation_durations_follow_the_catalog() {
    let mut durations = HashMap::new();
    let d = Duration::from_secs;
    assert_eq!(set_generation_duration_with_error_handling(&mut durations, 2, d(1), DurationReply::Stored), Ok(()));
    assert_eq!(
        set_generation_duration_with_error_handling(&mut durations, 3, d(2), DurationReply::AlreadyExists),
        Ok(())
    );
    let other = DurationReply::CannotChange { existing: d(9) };
    assert_eq!(set_generation_duration_with_error_handling(&mut durations, 4, d(3), other), Ok(()));
    let failed = DurationReply::Failed("io".to_string());
    assert_eq!(
        set_generation_duration_with_error_handling(&mut durations, 5, d(4), failed),
        Err(ServeError::Catalog("io".to_string()))
    );
    assert_eq!(durations, HashMap::from([(2, d(1)), (3, d(2)), (4, d(9))]));
}

#[test]
fn small_settings() {
    assert_eq!(build_malloc_conf(), "system");
    assert_eq!(table_index_cache_entries(0), None);
    assert_eq!(table_index_cache_entries(5), Some(5));
    assert_eq!(query_threads(Some(3), 8), 3);
    assert_eq!(query_threads(None, 8), 8);
    assert_eq!(query_threads(None, 0), 1);
    assert_eq!(snapshots_to_load_on_start(600, 600), 100);
    assert_eq!(snapshots_to_load_on_start(101 * 60, 60), 101);
}

#[test]
fn writer_lists() {
    let list = strings(&[" w1 = http://a?x=1 ", "  ", "w2=http://b"]);
    let targets = parse_writers(&list).unwrap();
    assert_eq!(targets.len(), 2);
    assert_eq!(targets[0].node_id.as_deref(), Some("w1"));
    assert_eq!(targets[0].url, "http://a?x=1");
    assert_eq!(targets[1].url, "http://b");
    assert_eq!(
        parse_writers(&strings(&["w1=u", "oops", "also"])),
        Err(ServeError::InvalidWriter("oops".to_string()))
    );
    // White space beyond ASCII is trimmed too.
    let wide = parse_writers(&strings(&["\u{3000}w\u{a0}=\u{2003}u\t"])).unwrap();
    assert_eq!((wide[0].node_id.as_deref(), wide[0].url.as_str()), (Some("w"), "u"));
    assert!(parse_writers(&strings(&["\u{2028}"])).unwrap().is_empty());
}

#[test]
fn queriers_pick_tails_and_remotes() {
    let targets = parse_writers(&strings(&["w1=u1"])).unwrap();
    let ids = strings(&[" a ", "b"]);
    let every = Duration::from_secs(1);
    let q = NodeMode::Querier;
    assert_eq!(tail_writers(q, &targets, &ids, every), Some(strings(&["w1"])));
    assert_eq!(tail_writers(q, &vec![], &ids, every), Some(strings(&["a", "b"])));
    assert_eq!(tail_writers(q, &vec![], &strings(&[" "]), every), None);
    assert_eq!(tail_writers(q, &targets, &ids, Duration::from_secs(0)), None);
    assert_eq!(tail_writers(NodeMode::Writer, &targets, &ids, every), None);
    let urls = strings(&["u9 "]);
    assert_eq!(remote_targets(q, &targets, &urls).unwrap(), targets);
    let by_url = remote_targets(q, &vec![], &urls).unwrap();
    assert_eq!((by_url[0].node_id.as_deref(), by_url[0].url.as_str()), (None, "u9"));
    assert_eq!(remote_targets(q, &vec![], &vec![]), None);
    assert_eq!(remote_targets(NodeMode::All, &targets, &urls), None);
}

#[test]
fn plan_of_a_single_node() {
    let plan = plan_services(&settings(NodeMode::All), "n", "uuid").unwrap();
    assert!(!plan.shared_catalog && !plan.shared_inventory && !plan.poll_inventory);
    assert!(plan.compact && plan.validate_refs);
    assert!(plan.writer_lease.is_none() && plan.compactor_lease.is_none());
    assert!(plan.tail_writers.is_none() && plan.remote_targets.is_none());
}

#[test]
fn plan_of_a_writer() {
    let plan = plan_services(&settings(NodeMode::Writer), "n", "uuid").unwrap();
    assert!(plan.shared_catalog && plan.shared_inventory && plan.poll_inventory);
    assert!(!plan.compact);
    let lease = plan.writer_lease.unwrap();
    assert_eq!(lease.path, "_locks/writer.lease");
    assert_eq!(lease.owner, "n-uuid");
    assert_eq!(lease.ttl, Duration::from_secs(60));
    let mut s = settings(NodeMode::Writer);
    s.writer_lease_ttl = Duration::from_secs(0);
    s.shared_catalog = Some(false);
    let plan = plan_services(&s, "n", "uuid").unwrap();
    assert!(plan.writer_lease.is_none() && !plan.shared_catalog);
}

#[test]
fn plan_of_a_compactor() {
    let plan = plan_services(&settings(NodeMode::Compactor), "n", "uuid").unwrap();
    assert!(plan.compact && !plan.endpoint_policy.allow_query);
    assert_eq!(plan.compactor_lease.unwrap().path, "_locks/compactor.lease");
    let mut s = settings(NodeMode::Compactor);
    s.enable_compaction = false;
    let plan = plan_services(&s, "n", "uuid").unwrap();
    assert!(!plan.compact && plan.compactor_lease.is_none());
}

#[test]
fn plan_of_a_querier() {
    let plan = plan_services(&settings(NodeMode::Querier), "n", "uuid").unwrap();
    assert!(!plan.compact);
    assert_eq!(plan.tail_writers.unwrap(), strings(&["w1", "w2"]));
    assert_eq!(plan.remote_targets.unwrap()[0].url, "http://w1");
}

#[test]
fn plans_that_fail() {
    let mut s = settings(NodeMode::All);
    s.writers = strings(&["bad"]);
    assert_eq!(
        plan_services(&s, "n", "u").err(),
        Some(ServeError::InvalidWriter("bad".to_string()))
    );
    s.has_cert = true;
    assert_eq!(plan_services(&s, "n", "u").err(), Some(ServeError::NoCertOrKeyFile));
}

#[test]
fn compaction_settings() {
    let c = compaction_config(
        &settings(NodeMode::All),
        HashMap::from([(2, Duration::from_secs(5))]),
    );
    assert!(c.enabled);
    assert_eq!(c.interval, Duration::from_secs(7));
    assert_eq!((c.max_files_per_run, c.min_files_for_compaction), (8, 9));
    assert_eq!(c.delete_grace, Duration::from_secs(10));
    assert_eq!(c.claim_ttl, Duration::from_secs(1800));
    assert_eq!(c.generation_durations.len(), 1);
}

#[test]
fn waiting_for_the_writer_lease() {
    let limit = lease_wait_limit(Duration::from_secs(60));
    assert_eq!(limit, Duration::from_secs(65));
    let early = Duration::from_secs(64);
    assert_eq!(lease_wait_step(Outcome::Held, limit, limit), LeaseWait::Acquired);
    assert_eq!(lease_wait_step(Outcome::NotHeld, early, limit), LeaseWait::Retry);
    assert_eq!(lease_wait_step(Outcome::Error, early, limit), LeaseWait::Retry);
    assert_eq!(
        lease_wait_step(Outcome::NotHeld, limit, limit),
        LeaseWait::GiveUp(ServeError::WriterLeaseHeld)
    );
    assert_eq!(
        lease_wait_step(Outcome::Error, limit, limit),
        LeaseWait::GiveUp(ServeError::WriterLeaseError)
    );
}

#[test]
fn clean_shutdown() {
    let mut server = ServerLoop::new(false);
    assert_eq!(server.on_event(ServerEvent::Signal, false, false), ServerAction::Shutdown);
    assert_eq!(
        server.on_event(ServerEvent::Frontend(Ok(())), true, true),
        ServerAction::Shutdown
    );
    assert_eq!(server.on_event(ServerEvent::Backend, true, true), ServerAction::Break);
    server.on_frontend_drained(Ok(()));
    assert_eq!(server.failure, None);
}

#[test]
fn lost_parts_fail_the_server() {
    let mut server = ServerLoop::new(false);
    assert_eq!(server.on_event(ServerEvent::Backend, false, false), ServerAction::Shutdown);
    assert_eq!(server.failure, Some(ServeError::LostBackend));
    // The first failure stays.
    server.on_event(ServerEvent::Frontend(Err("io".to_string())), true, true);
    assert_eq!(server.failure, Some(ServeError::LostBackend));

    let mut server = ServerLoop::new(false);
    server.on_event(ServerEvent::Frontend(Ok(())), false, true);
    assert_eq!(server.failure, Some(ServeError::LostHttpGrpc));

    let mut server = ServerLoop::new(false);
    server.on_frontend_drained(Err("late".to_string()));
    assert_eq!(server.failure, Some(ServeError::Server("late".to_string())));
}

#[test]
fn recovery_endpoint_may_end_by_itself() {
    let mut server = ServerLoop::new(true);
    assert_eq!(
        server.on_event(ServerEvent::Recovery(Ok(())), false, false),
        ServerAction::Continue
    );
    assert!(!server.recovery_active);
    assert_eq!(server.failure, None);

    let mut server = ServerLoop::new(true);
    assert_eq!(
        server.on_event(ServerEvent::Recovery(Err("r".to_string())), false, false),
        ServerAction::Shutdown
    );
    assert_eq!(server.failure, Some(ServeError::Server("r".to_string())));

    let mut server = ServerLoop::new(true);
    assert_eq!(
        server.on_event(ServerEvent::Recovery(Ok(())), true, true),
        ServerAction::Break
    );
    let mut server = ServerLoop::new(true);
    assert_eq!(
        server.on_event(ServerEvent::Recovery(Ok(())), true, false),
        ServerAction::Shutdown
    );
}

#[test]
fn admin_tokens() {
    let hash = admin_token_hash("apiv3_test").unwrap();
    assert_eq!(hash.len(), 64);
    let hex: String = hash.iter().map(|b| format!("{b:02x}")).collect();
    let expected: String =
        <sha2::Sha512 as sha2::Digest>::digest(b"apiv3_test").iter().map(|b| format!("{b:02x}")).collect();
    assert_eq!(hex, expected);
    assert_ne!(admin_token_hash("apiv3_other").unwrap(), hash);
    assert_eq!(admin_token_hash("apiv2_test"), Err(ServeError::InvalidToken));
    assert_eq!(insecure_permissions(0o100600), None);
    assert_eq!(insecure_permissions(0o100644), Some(0o644));
    assert_eq!(settle_admin_token(TokenReply::Created), Ok(()));
    assert_eq!(settle_admin_token(TokenReply::NameExists), Ok(()));
    assert_eq!(
        settle_admin_token(TokenReply::Failed("x".to_string())),
        Err(ServeError::Catalog("x".to_string()))
    );
}

#[test]
fn package_managers() {
    assert_eq!(determine_package_manager(None, true, true), PackageManager::Pip);
    assert_eq!(determine_package_manager(None, false, true), PackageManager::Uv);
    assert_eq!(determine_package_manager(None, false, false), PackageManager::Disabled);
    assert_eq!(
        determine_package_manager(Some(PackageManager::Uv), true, false),
        PackageManager::Uv
    );
}

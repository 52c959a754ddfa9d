use std::sync::Arc;

use bytes::Bytes;
use influxdb3_write::duration::Duration;
use influxdb3_write::leases::{
    report, Acquire, AcquireStage, AcquireStep, Lease, LeaseConfig, LeaseDoc, LeaseError, LeaseTurn,
    Outcome, RefreshOutcome, StoreCall, StoreFailure, StoreReply, StoredLease, UpdateVersion,
};
use object_store::memory::InMemory;
use object_store::path::Path;
use object_store::{ObjectStore, PutMode, PutOptions, PutResult};

fn block<F: std::future::Future>(f: F) -> F::Output {
    tokio::runtime::Builder::new_current_thread().build().unwrap().block_on(f)
}

fn store() -> Arc<dyn ObjectStore> {
    Arc::new(InMemory::new())
}

fn lease(path: &str, owner: &str, ttl: Duration) -> Lease {
    Lease::new(LeaseConfig::new(path.to_string(), owner.to_string(), ttl))
}

fn failure(e: object_store::Error) -> StoreFailure {
    match e {
        object_store::Error::AlreadyExists { .. } => StoreFailure::AlreadyExists,
        object_store::Error::NotFound { .. } => StoreFailure::NotFound,
        object_store::Error::Precondition { .. } => StoreFailure::Precondition,
        object_store::Error::NotSupported { .. } => StoreFailure::NotSupported,
        other => StoreFailure::Other(other.to_string()),
    }
}

fn version(put: PutResult) -> UpdateVersion {
    UpdateVersion { e_tag: put.e_tag, version: put.version }
}

fn encode(doc: &LeaseDoc) -> Bytes {
    Bytes::from(format!(
        "{} {} {}",
        doc.owner, doc.acquired_at_unix_ms, doc.expires_at_unix_ms
    ))
}

fn decode(bytes: &[u8]) -> LeaseDoc {
    let text = String::from_utf8(bytes.to_vec()).unwrap();
    let mut parts = text.split(' ');
    LeaseDoc {
        owner: parts.next().unwrap().to_string(),
        acquired_at_unix_ms: parts.next().unwrap().parse().unwrap(),
        expires_at_unix_ms: parts.next().unwrap().parse().unwrap(),
    }
}

async fn perform(store: &Arc<dyn ObjectStore>, path: &Path, call: StoreCall) -> StoreReply {
    match call {
        StoreCall::Create(doc) => StoreReply::Written(
            store
                .put_opts(path, encode(&doc).into(), PutOptions::from(PutMode::Create))
                .await
                .map(version)
                .map_err(failure),
        ),
        StoreCall::Read => match store.get(path).await {
            Ok(found) => {
                let version = UpdateVersion {
                    e_tag: found.meta.e_tag.clone(),
                    version: found.meta.version.clone(),
                };
                let doc = decode(&found.bytes().await.unwrap());
                StoreReply::Document(Ok(StoredLease { version, doc }))
            }
            Err(e) => StoreReply::Document(Err(LeaseError::ObjectStore(failure(e)))),
        },
        StoreCall::Update(doc, v) => StoreReply::Written(
            store
                .put_opts(
                    path,
                    encode(&doc).into(),
                    PutOptions::from(PutMode::Update(object_store::UpdateVersion {
                        e_tag: v.e_tag,
                        version: v.version,
                    })),
                )
                .await
                .map(version)
                .map_err(failure),
        ),
        StoreCall::Put(doc) => StoreReply::Written(
            store.put(path, encode(&doc).into()).await.map(version).map_err(failure),
        ),
    }
}

async fn try_acquire(lease: &mut Lease, store: &Arc<dyn ObjectStore>, now: i64) -> bool {
    let path = Path::from(lease.config().path.as_str());
    let (mut attempt, mut call) = lease.try_acquire(now);
    loop {
        let reply = perform(store, &path, call).await;
        match lease.resume_acquire(&attempt, reply) {
            AcquireStep::Call(stage, next) => {
                attempt.stage = stage;
                call = next;
            }
            AcquireStep::Held(_) => return true,
            AcquireStep::Refused => return false,
            AcquireStep::Failed(e) => panic!("acquire failed: {e:?}"),
        }
    }
}

async fn refresh(lease: &mut Lease, store: &Arc<dyn ObjectStore>, now: i64) -> bool {
    let path = Path::from(lease.config().path.as_str());
    let Some((doc, v)) = lease.refresh(now) else {
        return false;
    };
    let expires = LeaseDoc {
        owner: doc.owner.clone(),
        acquired_at_unix_ms: doc.acquired_at_unix_ms,
        expires_at_unix_ms: doc.expires_at_unix_ms,
    };
    let StoreReply::Written(reply) = perform(store, &path, StoreCall::Update(doc, v)).await else {
        unreachable!()
    };
    match lease.resume_refresh(&expires, reply) {
        RefreshOutcome::Extended(_) => true,
        RefreshOutcome::Lost => false,
        RefreshOutcome::Failed(e) => panic!("refresh failed: {e:?}"),
    }
}

async fn release(lease: &mut Lease, store: &Arc<dyn ObjectStore>) {
    if !lease.has_hold() {
        return;
    }
    let path = Path::from(lease.config().path.as_str());
    let head = store
        .head(&path)
        .await
        .map(|m| UpdateVersion { e_tag: m.e_tag, version: m.version })
        .map_err(failure);
    if lease.release(&head) {
        store.delete(&path).await.unwrap();
    }
}

#[test]
fn acquire_when_unheld() {
    block(async {
        let s = store();
        let mut l = lease("_locks/test.lease", "node-a", Duration::from_secs(60));
        assert!(try_acquire(&mut l, &s, 1_000).await);
        assert!(l.is_leader(1_000));
    });
}

#[test]
fn second_acquirer_rejected_while_active() {
    block(async {
        let s = store();
        let mut a = lease("_locks/x.lease", "node-a", Duration::from_secs(60));
        let mut b = lease("_locks/x.lease", "node-b", Duration::from_secs(60));
        assert!(try_acquire(&mut a, &s, 1_000).await);
        assert!(!try_acquire(&mut b, &s, 2_000).await, "B should fail while A holds");
        assert!(a.is_leader(2_000));
        assert!(!b.is_leader(2_000));
    });
}

#[test]
fn takeover_after_expiry() {
    block(async {
        let s = store();
        let mut a = lease("_locks/y.lease", "node-a", Duration::from_secs(60));
        let mut b = lease("_locks/y.lease", "node-b", Duration::from_secs(60));
        assert!(try_acquire(&mut a, &s, 1_000).await);
        // 120s later, A's 60s lease has expired.
        assert!(try_acquire(&mut b, &s, 1_000 + 120_000).await);
        assert!(!a.is_leader(1_000 + 120_000));
        assert!(b.is_leader(1_000 + 120_000));
    });
}

#[test]
fn refresh_extends_expiry() {
    block(async {
        let s = store();
        let mut a = lease("_locks/z.lease", "node-a", Duration::from_secs(60));
        assert!(try_acquire(&mut a, &s, 1_000).await);
        assert!(refresh(&mut a, &s, 30_000).await);
        // Now expires at 30_000 + 60_000 = 90_000.
        assert!(a.is_leader(80_000));
        assert!(!a.is_leader(95_000));
    });
}

#[test]
fn release_lets_peer_take_over_immediately() {
    block(async {
        let s = store();
        let mut a = lease("_locks/r.lease", "node-a", Duration::from_secs(60));
        let mut b = lease("_locks/r.lease", "node-b", Duration::from_secs(60));
        assert!(try_acquire(&mut a, &s, 1_000).await);
        release(&mut a, &s).await;
        assert!(try_acquire(&mut b, &s, 2_000).await);
        assert!(!a.is_leader(2_000), "what is released is not held any more");
    });
}

#[test]
fn own_live_lease_is_acquired_again() {
    block(async {
        let s = store();
        let mut a = lease("_locks/x.lease", "node-a", Duration::from_secs(60));
        assert!(try_acquire(&mut a, &s, 1_000).await);
        assert!(try_acquire(&mut a, &s, 2_000).await);
        assert!(a.is_leader(61_999));
    });
}

#[test]
fn release_deletes_only_what_is_known_to_be_ours() {
    let v = |tag: &str| UpdateVersion { e_tag: Some(tag.to_string()), version: None };
    let held = || {
        let (mut l, a) = attempt_at(AcquireStage::Create);
        l.resume_acquire(&a, StoreReply::Written(Ok(v("1"))));
        l
    };
    for (head, delete) in [
        (Ok(v("1")), true),
        (Ok(v("2")), false),
        (Err(StoreFailure::NotFound), true),
        (Err(StoreFailure::Other("boom".to_string())), false),
    ] {
        let mut l = held();
        assert!(l.is_leader(2_000));
        assert_eq!(l.release(&head), delete, "{head:?}");
        assert!(!l.is_leader(2_000));
        assert!(!l.has_hold());
    }
}

#[test]
fn is_leader_respects_wall_clock_expiry() {
    block(async {
        let s = store();
        let mut a = lease("_locks/c.lease", "node-a", Duration::from_secs(10));
        assert!(try_acquire(&mut a, &s, 1_000).await);
        assert!(a.is_leader(5_000));
        assert!(!a.is_leader(20_000));
    });
}

#[test]
fn refresh_of_a_lost_lease() {
    block(async {
        let s = store();
        let mut a = lease("_locks/l.lease", "node-a", Duration::from_secs(60));
        let mut b = lease("_locks/l.lease", "node-b", Duration::from_secs(60));
        assert!(!refresh(&mut a, &s, 0).await, "nothing to refresh");
        assert!(try_acquire(&mut a, &s, 1_000).await);
        assert!(try_acquire(&mut b, &s, 200_000).await);
        assert!(!refresh(&mut a, &s, 200_001).await);
        assert!(!a.has_hold());
        // A release of what is no longer held leaves the successor's lease alone.
        release(&mut a, &s).await;
        assert!(refresh(&mut b, &s, 200_002).await);
    });
}

#[test]
fn release_leaves_a_successor_alone() {
    block(async {
        let s = store();
        let mut a = lease("_locks/s.lease", "node-a", Duration::from_secs(60));
        let mut b = lease("_locks/s.lease", "node-b", Duration::from_secs(60));
        assert!(try_acquire(&mut a, &s, 1_000).await);
        assert!(try_acquire(&mut b, &s, 200_000).await);
        release(&mut a, &s).await;
        assert!(refresh(&mut b, &s, 200_001).await);
    });
}

fn attempt_at(stage: AcquireStage) -> (Lease, Acquire) {
    let l = lease("_locks/n.lease", "node-a", Duration::from_secs(60));
    let (mut attempt, _) = l.try_acquire(1_000);
    attempt.stage = stage;
    (l, attempt)
}

fn doc(owner: &str, expires: i64) -> LeaseDoc {
    LeaseDoc {
        owner: owner.to_string(),
        acquired_at_unix_ms: 0,
        expires_at_unix_ms: expires,
    }
}

fn stored(owner: &str, expires: i64) -> StoredLease {
    let version = UpdateVersion { e_tag: Some("7".to_string()), version: None };
    StoredLease { version, doc: doc(owner, expires) }
}

#[test]
fn store_without_conditional_writes() {
    let (mut l, a) = attempt_at(AcquireStage::Create);
    let reply = StoreReply::Written(Err(StoreFailure::NotSupported));
    assert_eq!(
        l.resume_acquire(&a, reply),
        AcquireStep::Call(AcquireStage::ReadUnguarded, StoreCall::Read)
    );
    let (mut l, a) = attempt_at(AcquireStage::ReadUnguarded);
    assert_eq!(
        l.resume_acquire(&a, StoreReply::Document(Ok(stored("node-b", 1_001)))),
        AcquireStep::Refused
    );
    let put = AcquireStep::Call(AcquireStage::PutUnguarded, StoreCall::Put(doc("node-a", 61_000)));
    let strip = |step: AcquireStep| match step {
        AcquireStep::Call(stage, StoreCall::Put(mut d)) => {
            d.acquired_at_unix_ms = 0;
            AcquireStep::Call(stage, StoreCall::Put(d))
        }
        other => other,
    };
    // Our own document, an expired one, and none at all are written over.
    let own = l.resume_acquire(&a, StoreReply::Document(Ok(stored("node-a", 9_000))));
    assert_eq!(strip(own), put);
    let expired = l.resume_acquire(&a, StoreReply::Document(Ok(stored("node-b", 1_000))));
    assert_eq!(strip(expired), put);
    let none = StoreReply::Document(Err(LeaseError::ObjectStore(StoreFailure::NotFound)));
    let fresh = l.resume_acquire(&a, none);
    assert_eq!(strip(fresh), put);
    assert!(!l.has_hold());

    let (mut l, a) = attempt_at(AcquireStage::PutUnguarded);
    let v = UpdateVersion { e_tag: Some("1".to_string()), version: None };
    l.resume_acquire(&a, StoreReply::Written(Ok(v)));
    assert!(l.is_leader(60_999));
    assert!(!l.is_leader(61_000));
}

#[test]
fn failures_of_an_attempt() {
    let (mut l, a) = attempt_at(AcquireStage::Create);
    let boom = || StoreFailure::Other("boom".to_string());
    assert_eq!(
        l.resume_acquire(&a, StoreReply::Written(Err(boom()))),
        AcquireStep::Failed(LeaseError::ObjectStore(boom()))
    );
    let (mut l, a) = attempt_at(AcquireStage::Read);
    let bad = || LeaseError::SerdeJson("eof".to_string());
    assert_eq!(
        l.resume_acquire(&a, StoreReply::Document(Err(bad()))),
        AcquireStep::Failed(bad())
    );
    let (mut l, a) = attempt_at(AcquireStage::Update);
    assert_eq!(
        l.resume_acquire(&a, StoreReply::Written(Err(StoreFailure::Precondition))),
        AcquireStep::Refused,
        "a peer was faster"
    );
    assert_eq!(
        l.resume_acquire(&a, StoreReply::Document(Ok(stored("node-b", 0)))),
        AcquireStep::Failed(LeaseError::UnexpectedReply)
    );
    assert!(!l.has_hold());
}

#[test]
fn refresh_error_keeps_the_hold() {
    let (mut l, a) = attempt_at(AcquireStage::Create);
    let v = UpdateVersion { e_tag: Some("1".to_string()), version: None };
    l.resume_acquire(&a, StoreReply::Written(Ok(v)));
    let failed = l.resume_refresh(&doc("node-a", 99), Err(StoreFailure::Other("x".to_string())));
    assert!(matches!(failed, RefreshOutcome::Failed(_)));
    assert!(l.is_leader(2_000));
    assert_eq!(l.resume_refresh(&doc("node-a", 99), Err(StoreFailure::NotFound)), RefreshOutcome::Lost);
    assert!(!l.is_leader(2_000));
}

#[test]
fn waits_of_the_refresh_loop() {
    let (mut l, a) = attempt_at(AcquireStage::Create);
    assert_eq!(l.config().refresh_interval, Duration::from_secs(20));
    assert_eq!(l.next_wait(1_000), Duration::from_secs(30));
    let v = UpdateVersion { e_tag: None, version: None };
    l.resume_acquire(&a, StoreReply::Written(Ok(v)));
    assert_eq!(l.next_wait(1_000), Duration::from_secs(20));
}

#[test]
fn reports_of_attempts() {
    let r = report(true, Outcome::Held);
    assert_eq!((r.op, r.result, r.leader), ("renew", "ok", Some(true)));
    let r = report(true, Outcome::NotHeld);
    assert_eq!((r.op, r.result, r.leader), ("renew", "lost", Some(false)));
    let r = report(false, Outcome::NotHeld);
    assert_eq!((r.op, r.result, r.leader), ("acquire", "conflict", Some(false)));
    let r = report(false, Outcome::Error);
    assert_eq!((r.op, r.result, r.leader), ("acquire", "error", None));
}

#[test]
fn holder_renews_and_others_acquire() {
    let mut l = lease("_locks/x.lease", "a", Duration::from_millis(100));
    assert!(matches!(l.next_turn(0), LeaseTurn::Acquire(_, StoreCall::Create(_))));
    let (attempt, _) = l.try_acquire(0);
    let v = UpdateVersion { e_tag: Some("1".to_string()), version: None };
    l.resume_acquire(&attempt, StoreReply::Written(Ok(v)));
    let LeaseTurn::Renew(doc, version) = l.next_turn(50) else { panic!("expected a renewal") };
    assert_eq!(doc.expires_at_unix_ms, 150);
    assert_eq!(version.e_tag.as_deref(), Some("1"));
    // A hold that has expired is not extended.
    assert!(matches!(l.next_turn(100), LeaseTurn::Acquire(_, _)));
}

#[test]
fn interleaved_takeovers_leave_one_leader() {
    block(async {
        let store = store();
        let ttl = Duration::from_millis(100);
        let mut old = lease("_locks/x.lease", "old", ttl);
        assert!(try_acquire(&mut old, &store, 0).await);

        // Both find the document expired, and both read the same version.
        let path = Path::from("_locks/x.lease");
        let mut a = lease("_locks/x.lease", "a", ttl);
        let mut b = lease("_locks/x.lease", "b", ttl);
        let (mut at_a, mut call_a) = a.try_acquire(200);
        let (mut at_b, mut call_b) = b.try_acquire(200);
        for _ in 0..2 {
            let reply = perform(&store, &path, call_a).await;
            let AcquireStep::Call(stage, next) = a.resume_acquire(&at_a, reply) else {
                panic!("expected another call")
            };
            at_a.stage = stage;
            call_a = next;
            let reply = perform(&store, &path, call_b).await;
            let AcquireStep::Call(stage, next) = b.resume_acquire(&at_b, reply) else {
                panic!("expected another call")
            };
            at_b.stage = stage;
            call_b = next;
        }
        let reply = perform(&store, &path, call_a).await;
        assert!(matches!(a.resume_acquire(&at_a, reply), AcquireStep::Held(_)));
        let reply = perform(&store, &path, call_b).await;
        assert_eq!(b.resume_acquire(&at_b, reply), AcquireStep::Refused);
        assert!(a.is_leader(201));
        assert!(!b.is_leader(201));
        assert!(!old.is_leader(201));
    });
}

#[test]
fn takeover_between_read_and_write_is_noticed() {
    block(async {
        let s = store();
        let ttl = Duration::from_millis(100);
        let mut old = lease("_locks/x.lease", "old", ttl);
        assert!(try_acquire(&mut old, &s, 0).await);
        // A reads the expired document; B takes over; then A goes on.
        let path = Path::from("_locks/x.lease");
        let mut a = lease("_locks/x.lease", "a", ttl);
        let mut b = lease("_locks/x.lease", "b", ttl);
        let (mut at_a, mut call_a) = a.try_acquire(200);
        for _ in 0..2 {
            let reply = perform(&s, &path, call_a).await;
            let AcquireStep::Call(stage, next) = a.resume_acquire(&at_a, reply) else {
                panic!("expected another call")
            };
            at_a.stage = stage;
            call_a = next;
        }
        assert!(try_acquire(&mut b, &s, 201).await);
        let reply = perform(&s, &path, call_a).await;
        assert_eq!(a.resume_acquire(&at_a, reply), AcquireStep::Refused);
        assert!(b.is_leader(202) && !a.is_leader(202));
    });
}

//! What holds of leases on a store that writes conditionally.

use vstd::prelude::*;

use crate::leases::{
    acquire_step, is_taken, lease_doc, refresh_outcome, ttl_ms, Acquire, AcquireStage, AcquireStep,
    Hold, LeaseConfig, LeaseDoc, LeaseError, RefreshOutcome, StoreCall, StoreFailure, StoreReply,
    StoredLease, UpdateVersion,
};

verus! {

/// A store with the document of one lease: its version and content, where there is
/// one, and every version that there has been.
pub struct LeaseStore {
    pub current: Option<StoredLease>,
    pub used: Set<UpdateVersion>,
}

/// The store wrote the document under a version that there has not been before.
pub open spec fn writes(s: LeaseStore, doc: LeaseDoc, v: UpdateVersion, t: LeaseStore) -> bool {
    &&& !s.used.contains(v)
    &&& t.current == Some(StoredLease { version: v, doc })
    &&& t.used == s.used.insert(v)
}

/// How a store that writes conditionally replies to a call.
pub open spec fn store_step(
    s: LeaseStore,
    call: StoreCall,
    reply: StoreReply,
    t: LeaseStore,
) -> bool {
    match call {
        StoreCall::Create(doc) => match s.current {
            None => reply is Written && reply->Written_0 is Ok && writes(
                s,
                doc,
                reply->Written_0->Ok_0,
                t,
            ),
            Some(_) => reply == StoreReply::Written(Err(StoreFailure::AlreadyExists)) && t == s,
        },
        StoreCall::Read => t == s && match s.current {
            Some(stored) => reply == StoreReply::Document(Ok(stored)),
            None => reply == StoreReply::Document(
                Err(LeaseError::ObjectStore(StoreFailure::NotFound)),
            ),
        },
        StoreCall::Update(doc, version) => match s.current {
            Some(stored) => if stored.version == version {
                reply is Written && reply->Written_0 is Ok && writes(
                    s,
                    doc,
                    reply->Written_0->Ok_0,
                    t,
                )
            } else {
                reply == StoreReply::Written(Err(StoreFailure::Precondition)) && t == s
            },
            None => reply == StoreReply::Written(Err(StoreFailure::NotFound)) && t == s,
        },
        StoreCall::Put(doc) => reply is Written && reply->Written_0 is Ok && writes(
            s,
            doc,
            reply->Written_0->Ok_0,
            t,
        ),
    }
}

/// The attempt, with `call` out and nobody else writing meanwhile, ends in `end` and
/// leaves the store as `t`, after at most `calls` calls.
pub open spec fn runs_to(
    attempt: Acquire,
    owner: Seq<char>,
    call: StoreCall,
    s: LeaseStore,
    end: AcquireStep,
    t: LeaseStore,
    calls: nat,
) -> bool
    decreases calls,
{
    calls > 0 && exists|reply: StoreReply, u: LeaseStore| #[trigger]
        store_step(s, call, reply, u) && match acquire_step(attempt, owner, reply) {
            AcquireStep::Call(stage, next) => runs_to(
                Acquire { stage, ..attempt },
                owner,
                next,
                u,
                end,
                t,
                (calls - 1) as nat,
            ),
            done => end == done && t == u,
        }
}

/// The attempt with which a process tries to acquire a lease.
pub open spec fn first_attempt(doc: LeaseDoc, now: i64) -> Acquire {
    Acquire { doc, now_unix_ms: now, stage: AcquireStage::Create }
}

proof fn one_call(
    attempt: Acquire,
    owner: Seq<char>,
    call: StoreCall,
    s: LeaseStore,
    end: AcquireStep,
    t: LeaseStore,
    calls: nat,
) -> (r: (StoreReply, LeaseStore))
    requires
        runs_to(attempt, owner, call, s, end, t, calls),
    ensures
        calls > 0,
        store_step(s, call, r.0, r.1),
        match acquire_step(attempt, owner, r.0) {
            AcquireStep::Call(stage, next) => runs_to(
                Acquire { stage, ..attempt },
                owner,
                next,
                r.1,
                end,
                t,
                (calls - 1) as nat,
            ),
            done => end == done && t == r.1,
        },
{
    choose|reply: StoreReply, u: LeaseStore| #[trigger]
        store_step(s, call, reply, u) && match acquire_step(attempt, owner, reply) {
            AcquireStep::Call(stage, next) => runs_to(
                Acquire { stage, ..attempt },
                owner,
                next,
                u,
                end,
                t,
                (calls - 1) as nat,
            ),
            done => end == done && t == u,
        }
}

/// An undisturbed attempt: where another live holder owns the lease, it is refused and the
/// store is unchanged; where there is no document, or it has expired, or it is this process's
/// own, the attempt acquires the lease.
pub proof fn attempt_decides(
    doc: LeaseDoc,
    now: i64,
    owner: Seq<char>,
    s: LeaseStore,
    end: AcquireStep,
    t: LeaseStore,
    calls: nat,
)
    requires
        runs_to(first_attempt(doc, now), owner, StoreCall::Create(doc), s, end, t, calls),
    ensures
        match s.current {
            Some(held) if is_taken(held.doc, now, owner) => end == AcquireStep::Refused && t == s,
            _ => end is Held && writes(s, doc, end->Held_0, t),
        },
{
    let a0 = first_attempt(doc, now);
    let (r0, u0) = one_call(a0, owner, StoreCall::Create(doc), s, end, t, calls);
    if s.current is Some {
        let held = s.current->0;
        let a1 = Acquire { stage: AcquireStage::Read, ..a0 };
        let c1 = (calls - 1) as nat;
        assert(acquire_step(a0, owner, r0) == AcquireStep::Call(
            AcquireStage::Read,
            StoreCall::Read,
        ));
        let (r1, u1) = one_call(a1, owner, StoreCall::Read, s, end, t, c1);
        if !is_taken(held.doc, now, owner) {
            let a2 = Acquire { stage: AcquireStage::Update, ..a1 };
            let call = StoreCall::Update(doc, held.version);
            assert(acquire_step(a1, owner, r1) == AcquireStep::Call(AcquireStage::Update, call));
            let (r2, u2) = one_call(a2, owner, call, s, end, t, (c1 - 1) as nat);
            assert(end is Held);
        }
    }
}

/// The processes that share a lease, by some name for each, with the name that each signs its
/// documents with, and its store.
pub struct LeaseSystem {
    pub store: LeaseStore,
    pub holds: Map<int, Hold>,
    pub owners: Map<int, Seq<char>>,
}

/// The hold is that of the document in the store.
pub open spec fn is_current(store: LeaseStore, hold: Hold) -> bool {
    store.current is Some && hold.version == Some(store.current->0.version)
}

/// What is known of the hold of the process that signs as `owner`: where it is that of the
/// document in the store, it has that document's expiry, and the document is signed by the
/// process; where it is not, it has expired.
pub open spec fn is_accounted(store: LeaseStore, hold: Hold, owner: Seq<char>, now: i64) -> bool {
    hold.version is Some ==> {
        &&& store.used.contains(hold.version->0)
        &&& is_current(store, hold) ==> hold.expires_at_unix_ms
            == store.current->0.doc.expires_at_unix_ms && store.current->0.doc.owner@ == owner
        &&& !is_current(store, hold) ==> hold.expires_at_unix_ms <= now
    }
}

/// The invariant of the processes that share a lease: every hold is accounted for, no two
/// processes hold the same version, and no two sign with the same name.
pub open spec fn is_exclusive(sys: LeaseSystem, now: i64) -> bool {
    &&& sys.store.current is Some ==> sys.store.used.contains(sys.store.current->0.version)
    &&& forall|i: int| #[trigger]
        sys.holds.contains_key(i) ==> is_accounted(sys.store, sys.holds[i], sys.owners[i], now)
    &&& forall|i: int, j: int|
        #![trigger sys.holds.contains_key(i), sys.holds.contains_key(j)]
        sys.holds.contains_key(i) && sys.holds.contains_key(j) && i != j ==> {
            &&& sys.owners[i] != sys.owners[j]
            &&& sys.holds[i].version is Some ==> sys.holds[i].version != sys.holds[j].version
        }
}

/// At most one process leads at a time.
pub proof fn at_most_one_leader(sys: LeaseSystem, now: i64, i: int, j: int)
    requires
        is_exclusive(sys, now),
        sys.holds.contains_key(i),
        sys.holds.contains_key(j),
        sys.holds[i].leads(now),
        sys.holds[j].leads(now),
    ensures
        i == j,
{
}

/// Processes that hold nothing, and sign with different names, start out exclusive.
pub proof fn no_holds_are_exclusive(sys: LeaseSystem, now: i64)
    requires
        sys.store.current is Some ==> sys.store.used.contains(sys.store.current->0.version),
        forall|i: int| #[trigger] sys.holds.contains_key(i) ==> sys.holds[i].version is None,
        forall|i: int, j: int|
            #![trigger sys.holds.contains_key(i), sys.holds.contains_key(j)]
            sys.holds.contains_key(i) && sys.holds.contains_key(j) && i != j ==> sys.owners[i]
                != sys.owners[j],
    ensures
        is_exclusive(sys, now),
{
}

/// The passing of time keeps the processes exclusive.
pub proof fn waiting_keeps_exclusive(sys: LeaseSystem, now: i64, later: i64)
    requires
        is_exclusive(sys, now),
        now <= later,
    ensures
        is_exclusive(sys, later),
{
    assert forall|i: int| #[trigger] sys.holds.contains_key(i) implies is_accounted(
        sys.store,
        sys.holds[i],
        sys.owners[i],
        later,
    ) by {
        assert(is_accounted(sys.store, sys.holds[i], sys.owners[i], now));
    }
}

/// A process whose hold changes together with the store keeps all of them exclusive, where its
/// new hold is accounted for and, if the store was written to, no other hold was live.
pub proof fn changed_hold_keeps_exclusive(
    sys: LeaseSystem,
    i: int,
    hold: Hold,
    t: LeaseStore,
    now: i64,
)
    requires
        is_exclusive(sys, now),
        sys.holds.contains_key(i),
        t.current is Some ==> t.used.contains(t.current->0.version),
        forall|v: UpdateVersion| sys.store.used.contains(v) ==> t.used.contains(v),
        is_accounted(t, hold, sys.owners[i], now),
        hold.version == sys.holds[i].version || hold.version is None
            || !sys.store.used.contains(hold.version->0),
        t != sys.store ==> {
            &&& t.current is Some ==> !sys.store.used.contains(t.current->0.version)
            &&& forall|k: int| #[trigger]
                sys.holds.contains_key(k) && k != i && is_current(sys.store, sys.holds[k])
                    ==> sys.holds[k].expires_at_unix_ms <= now
        },
    ensures
        is_exclusive(LeaseSystem { store: t, holds: sys.holds.insert(i, hold), ..sys }, now),
{
    let after = LeaseSystem { store: t, holds: sys.holds.insert(i, hold), ..sys };
    assert forall|k: int| #[trigger] after.holds.contains_key(k) implies is_accounted(
        after.store,
        after.holds[k],
        after.owners[k],
        now,
    ) by {
        assert(sys.holds.contains_key(k));
        assert(is_accounted(sys.store, sys.holds[k], sys.owners[k], now));
    }
    assert forall|k: int, l: int|
        #![trigger after.holds.contains_key(k), after.holds.contains_key(l)]
        after.holds.contains_key(k) && after.holds.contains_key(l) && k != l implies {
        &&& after.owners[k] != after.owners[l]
        &&& after.holds[k].version is Some ==> after.holds[k].version != after.holds[l].version
    } by {
        assert(sys.holds.contains_key(k) && sys.holds.contains_key(l));
        assert(is_accounted(sys.store, sys.holds[k], sys.owners[k], now));
        assert(is_accounted(sys.store, sys.holds[l], sys.owners[l], now));
    }
}

/// An undisturbed attempt of one process to acquire the lease keeps them exclusive.
pub proof fn acquiring_keeps_exclusive(
    sys: LeaseSystem,
    i: int,
    doc: LeaseDoc,
    now: i64,
    end: AcquireStep,
    t: LeaseStore,
    calls: nat,
)
    requires
        is_exclusive(sys, now),
        sys.holds.contains_key(i),
        doc.owner@ == sys.owners[i],
        runs_to(
            first_attempt(doc, now),
            sys.owners[i],
            StoreCall::Create(doc),
            sys.store,
            end,
            t,
            calls,
        ),
    ensures
        ({
            let hold = match end {
                AcquireStep::Held(v) => Hold {
                    version: Some(v),
                    expires_at_unix_ms: doc.expires_at_unix_ms,
                },
                _ => sys.holds[i],
            };
            is_exclusive(LeaseSystem { store: t, holds: sys.holds.insert(i, hold), ..sys }, now)
        }),
{
    attempt_decides(doc, now, sys.owners[i], sys.store, end, t, calls);
    let hold = match end {
        AcquireStep::Held(v) => Hold {
            version: Some(v),
            expires_at_unix_ms: doc.expires_at_unix_ms,
        },
        _ => sys.holds[i],
    };
    assert(is_accounted(sys.store, sys.holds[i], sys.owners[i], now));
    assert forall|k: int| #[trigger]
        sys.holds.contains_key(k) && k != i && is_current(sys.store, sys.holds[k]) && t
            != sys.store implies sys.holds[k].expires_at_unix_ms <= now by {
        assert(is_accounted(sys.store, sys.holds[k], sys.owners[k], now));
        assert(sys.owners[k] != sys.owners[i]) by {
            assert(sys.holds.contains_key(i));
        }
    }
    changed_hold_keeps_exclusive(sys, i, hold, t, now);
}

/// A refresh by one process keeps them exclusive.
pub proof fn refreshing_keeps_exclusive(
    sys: LeaseSystem,
    i: int,
    doc: LeaseDoc,
    now: i64,
    reply: Result<UpdateVersion, StoreFailure>,
    t: LeaseStore,
)
    requires
        is_exclusive(sys, now),
        sys.holds.contains_key(i),
        sys.holds[i].version is Some,
        doc.owner@ == sys.owners[i],
        store_step(
            sys.store,
            StoreCall::Update(doc, sys.holds[i].version->0),
            StoreReply::Written(reply),
            t,
        ),
    ensures
        is_exclusive(
            LeaseSystem {
                store: t,
                holds: sys.holds.insert(i, refreshed(sys.holds[i], doc, reply)),
                ..sys
            },
            now,
        ),
{
    let hold = refreshed(sys.holds[i], doc, reply);
    assert(is_accounted(sys.store, sys.holds[i], sys.owners[i], now));
    assert forall|k: int| #[trigger]
        sys.holds.contains_key(k) && k != i && is_current(sys.store, sys.holds[k]) && t
            != sys.store implies sys.holds[k].expires_at_unix_ms <= now by {
        assert(sys.holds.contains_key(i));
        assert(sys.holds[k].version == sys.holds[i].version);
    }
    changed_hold_keeps_exclusive(sys, i, hold, t, now);
}

/// The hold once the store has replied to the write that was to extend it.
pub open spec fn refreshed(
    hold: Hold,
    doc: LeaseDoc,
    reply: Result<UpdateVersion, StoreFailure>,
) -> Hold {
    match refresh_outcome(reply) {
        RefreshOutcome::Extended(v) => Hold {
            version: Some(v),
            expires_at_unix_ms: doc.expires_at_unix_ms,
        },
        RefreshOutcome::Lost => Hold { version: None, ..hold },
        RefreshOutcome::Failed(_) => hold,
    }
}

/// The hold once it is given up.
pub open spec fn released(hold: Hold) -> Hold {
    Hold { version: None, ..hold }
}

/// A process that has given its hold up does not lead.
pub proof fn released_does_not_lead(hold: Hold, now: i64)
    ensures
        !released(hold).leads(now),
{
}

/// A process that gives its hold up, and deletes its document, keeps them exclusive.
pub proof fn releasing_keeps_exclusive(sys: LeaseSystem, i: int, now: i64)
    requires
        is_exclusive(sys, now),
        sys.holds.contains_key(i),
        is_current(sys.store, sys.holds[i]),
    ensures
        is_exclusive(
            LeaseSystem {
                store: LeaseStore { current: None, ..sys.store },
                holds: sys.holds.insert(i, released(sys.holds[i])),
                ..sys
            },
            now,
        ),
{
    let t = LeaseStore { current: None, ..sys.store };
    assert forall|k: int| #[trigger]
        sys.holds.contains_key(k) && k != i && is_current(
            sys.store,
            sys.holds[k],
        ) implies sys.holds[k].expires_at_unix_ms <= now by {
        assert(sys.holds.contains_key(i));
        assert(sys.holds[k].version == sys.holds[i].version);
    }
    changed_hold_keeps_exclusive(sys, i, released(sys.holds[i]), t, now);
}

/// A process that gives its hold up, and leaves the document alone, keeps them exclusive.
pub proof fn giving_up_keeps_exclusive(sys: LeaseSystem, i: int, now: i64)
    requires
        is_exclusive(sys, now),
        sys.holds.contains_key(i),
    ensures
        is_exclusive(
            LeaseSystem { holds: sys.holds.insert(i, released(sys.holds[i])), ..sys },
            now,
        ),
{
    changed_hold_keeps_exclusive(sys, i, released(sys.holds[i]), sys.store, now);
}

/// Once a holder has released the lease, the next attempt acquires it at once, whenever the
/// hold would have expired.
pub proof fn released_lease_is_free(
    s: LeaseStore,
    doc: LeaseDoc,
    now: i64,
    owner: Seq<char>,
    end: AcquireStep,
    t: LeaseStore,
    calls: nat,
)
    requires
        runs_to(
            first_attempt(doc, now),
            owner,
            StoreCall::Create(doc),
            LeaseStore { current: None, ..s },
            end,
            t,
            calls,
        ),
    ensures
        end is Held,
{
    attempt_decides(doc, now, owner, LeaseStore { current: None, ..s }, end, t, calls);
}

/// A hold that is refreshed in time leads until its lifetime has passed again.
pub proof fn refresh_extends(config: LeaseConfig, now: i64, later: i64, v: UpdateVersion)
    requires
        i64::MIN <= now + ttl_ms(config.ttl) <= i64::MAX,
    ensures
        ({
            let hold = Hold {
                version: Some(v),
                expires_at_unix_ms: lease_doc(config, now).expires_at_unix_ms,
            };
            hold.leads(later) <==> later < now + ttl_ms(config.ttl)
        }),
{
}

} // verus!

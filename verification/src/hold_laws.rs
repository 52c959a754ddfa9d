//! What a process may rely on when it acquires, refreshes and loses a lease.

use vstd::prelude::*;

use crate::duration::Duration;
use crate::lease_laws::{attempt_decides, first_attempt, refreshed, runs_to, writes, LeaseStore};
use crate::leases::{
    acquire_step, lease_doc, Acquire, AcquireStage, AcquireStep, Hold, LeaseConfig,
    LeaseDoc, LeaseError, StoreCall, StoreFailure, StoreReply, StoredLease, UpdateVersion,
};

verus! {

/// The milliseconds of a span are its whole milliseconds: a millisecond has a million
/// nanoseconds.
pub proof fn millis_are_whole(d: Duration)
    ensures
        d.millis() * 1_000_000 <= d.nanos < (d.millis() + 1) * 1_000_000,
{
    let n: int = d.nanos as int;
    let m: int = n / 1_000_000;
    assert(m * 1_000_000 <= n && n < (m + 1) * 1_000_000) by (nonlinear_arith)
        requires
            m == n / 1_000_000,
    ;
}

/// A process that writes its document at `now` leads from then on for exactly its lifetime, and
/// the document says who it is and when it was written.
pub proof fn hold_lasts_its_lifetime(
    config: LeaseConfig,
    ms: i64,
    now: i64,
    at: i64,
    v: UpdateVersion,
)
    requires
        0 <= ms,
        config.ttl.nanos == ms * 1_000_000,
        now + ms <= i64::MAX,
    ensures
        lease_doc(config, now).owner == config.owner,
        lease_doc(config, now).acquired_at_unix_ms == now,
        ({
            let hold = Hold {
                version: Some(v),
                expires_at_unix_ms: lease_doc(config, now).expires_at_unix_ms,
            };
            hold.leads(at) <==> at < now + ms
        }),
        !(Hold { version: None, expires_at_unix_ms: lease_doc(config, now).expires_at_unix_ms }).leads(
            at,
        ),
{
    assert(config.ttl.millis() == ms) by (nonlinear_arith)
        requires
            config.ttl.nanos as int == ms as int * 1_000_000,
            config.ttl.millis() == config.ttl.nanos as int / 1_000_000,
    ;
}

/// Where nobody else writes meanwhile, an attempt is refused exactly if the store has a document
/// of another holder that has not expired; otherwise the process's own document is in the store
/// at the end.
pub proof fn attempt_is_refused_only_for_a_live_holder(
    doc: LeaseDoc,
    now: i64,
    owner: Seq<char>,
    s: LeaseStore,
    end: AcquireStep,
    t: LeaseStore,
    calls: nat,
)
    requires
        runs_to(first_attempt(doc, now), owner, StoreCall::Create(doc), s, end, t, calls),
    ensures
        ({
            let live = s.current is Some && now < s.current->0.doc.expires_at_unix_ms
                && s.current->0.doc.owner@ != owner;
            &&& live ==> end == AcquireStep::Refused && t == s
            &&& !live ==> end is Held && writes(s, doc, end->Held_0, t)
        }),
{
    attempt_decides(doc, now, owner, s, end, t, calls);
}

/// How far a stage is from the first call of an attempt.
pub open spec fn calls_before(stage: AcquireStage) -> nat {
    match stage {
        AcquireStage::Create => 0,
        AcquireStage::Read => 1,
        AcquireStage::ReadUnguarded => 1,
        AcquireStage::Update => 2,
        AcquireStage::PutUnguarded => 2,
    }
}

/// An attempt ends after three calls at most, whatever the store replies: each step leads to a
/// later call. Nothing is ever written but the attempt's own document, and never over a document
/// that was not read.
pub proof fn attempt_ends(attempt: Acquire, owner: Seq<char>, reply: StoreReply)
    ensures
        match acquire_step(attempt, owner, reply) {
            AcquireStep::Call(stage, call) => {
                &&& calls_before(stage) == calls_before(attempt.stage) + 1
                &&& match call {
                    StoreCall::Create(_) => false,
                    StoreCall::Read => stage is Read || stage is ReadUnguarded,
                    StoreCall::Update(doc, version) => doc == attempt.doc && stage is Update
                        && reply is Document && reply->Document_0 is Ok
                        && reply->Document_0->Ok_0.version == version,
                    StoreCall::Put(doc) => doc == attempt.doc && stage is PutUnguarded,
                }
            },
            AcquireStep::Held(v) => reply == StoreReply::Written(Ok(v)),
            AcquireStep::Refused => true,
            AcquireStep::Failed(_) => true,
        },
{
}

/// An attempt fails on a failure of the store that says nothing about the lease, and on nothing
/// else that a store replies to the call that is out.
pub proof fn failures_are_passed_on(attempt: Acquire, owner: Seq<char>, e: StoreFailure)
    requires
        e is Other,
    ensures
        attempt.stage is Create || attempt.stage is Update || attempt.stage is PutUnguarded
            ==> acquire_step(attempt, owner, StoreReply::Written(Err(e))) == AcquireStep::Failed(
            LeaseError::ObjectStore(e),
        ),
        attempt.stage is Read || attempt.stage is ReadUnguarded ==> acquire_step(
            attempt,
            owner,
            StoreReply::Document(Err(LeaseError::ObjectStore(e))),
        ) == AcquireStep::Failed(LeaseError::ObjectStore(e)),
{
}

/// What a store that cannot write conditionally replies to the call, and what it holds then.
pub open spec fn unguarded_reply(
    current: Option<StoredLease>,
    call: StoreCall,
    v: UpdateVersion,
) -> (StoreReply, Option<StoredLease>) {
    match call {
        StoreCall::Create(_) => (
            StoreReply::Written(Err(StoreFailure::NotSupported)),
            current,
        ),
        StoreCall::Read => match current {
            Some(stored) => (StoreReply::Document(Ok(stored)), current),
            None => (
                StoreReply::Document(Err(LeaseError::ObjectStore(StoreFailure::NotFound))),
                current,
            ),
        },
        StoreCall::Update(_, _) => (
            StoreReply::Written(Err(StoreFailure::NotSupported)),
            current,
        ),
        StoreCall::Put(doc) => (
            StoreReply::Written(Ok(v)),
            Some(StoredLease { version: v, doc }),
        ),
    }
}

/// How an attempt ends on such a store, and what the store holds then.
pub open spec fn unguarded_run(
    attempt: Acquire,
    owner: Seq<char>,
    call: StoreCall,
    current: Option<StoredLease>,
    v: UpdateVersion,
    calls: nat,
) -> (AcquireStep, Option<StoredLease>)
    decreases calls,
{
    let (reply, next) = unguarded_reply(current, call, v);
    match acquire_step(attempt, owner, reply) {
        AcquireStep::Call(stage, another) => if calls == 0 {
            (AcquireStep::Call(stage, another), next)
        } else {
            unguarded_run(
                Acquire { stage, ..attempt },
                owner,
                another,
                next,
                v,
                (calls - 1) as nat,
            )
        },
        done => (done, next),
    }
}

/// On a store that cannot write conditionally an attempt decides in the same way: it is refused,
/// and leaves the document alone, exactly if the document is another holder's and has not
/// expired; otherwise it writes its own.
pub proof fn unguarded_attempt_decides(
    doc: LeaseDoc,
    now: i64,
    owner: Seq<char>,
    current: Option<StoredLease>,
    v: UpdateVersion,
)
    ensures
        ({
            let live = current is Some && now < current->0.doc.expires_at_unix_ms
                && current->0.doc.owner@ != owner;
            let (end, after) = unguarded_run(
                first_attempt(doc, now),
                owner,
                StoreCall::Create(doc),
                current,
                v,
                3,
            );
            &&& live ==> end == AcquireStep::Refused && after == current
            &&& !live ==> end == AcquireStep::Held(v) && after == Some(
                StoredLease { version: v, doc },
            )
        }),
{
    reveal_with_fuel(unguarded_run, 4);
}

/// A refresh that the store writes extends the hold to the new document's expiry. One that finds
/// the document replaced or deleted loses it at once. Any other failure leaves it as it was, so
/// that it still ends when it would have.
pub proof fn refresh_extends_or_loses(hold: Hold, doc: LeaseDoc, v: UpdateVersion, at: i64)
    ensures
        refreshed(hold, doc, Ok(v)).version == Some(v),
        refreshed(hold, doc, Ok(v)).leads(at) <==> at < doc.expires_at_unix_ms,
        !refreshed(hold, doc, Err(StoreFailure::Precondition)).leads(at),
        !refreshed(hold, doc, Err(StoreFailure::NotFound)).leads(at),
        refreshed(hold, doc, Err(StoreFailure::Precondition)).version is None,
        refreshed(hold, doc, Err(StoreFailure::NotFound)).version is None,
        refreshed(hold, doc, Err(StoreFailure::AlreadyExists)) == hold,
        refreshed(hold, doc, Err(StoreFailure::NotSupported)) == hold,
        forall|e: String| #[trigger] refreshed(hold, doc, Err(StoreFailure::Other(e))) == hold,
{
}

} // verus!

//! Many processes after the same lease at once, call by call.

use vstd::prelude::*;

use crate::lease_laws::{
    at_most_one_leader, changed_hold_keeps_exclusive, first_attempt, giving_up_keeps_exclusive,
    is_accounted, is_current, is_exclusive, refreshed, refreshing_keeps_exclusive, released,
    releasing_keeps_exclusive, store_step, waiting_keeps_exclusive, LeaseStore, LeaseSystem,
};
use crate::leases::{
    acquire_step, is_taken, Acquire, AcquireStage, AcquireStep, Hold, LeaseDoc, StoreCall,
    StoreFailure, StoreReply, UpdateVersion,
};

verus! {

/// An attempt that waits for the reply to a call.
pub struct Pending {
    pub attempt: Acquire,
    pub call: StoreCall,
}

/// The store of a lease, the processes that share the lease, by some name for each, with what
/// they hold and what they sign with, the attempts that are under way, and the time.
pub struct LeaseWorld {
    pub system: LeaseSystem,
    pub attempts: Map<int, Pending>,
    pub now: i64,
}

/// Process `i` starts an attempt.
pub open spec fn starts(a: LeaseWorld, i: int, doc: LeaseDoc, b: LeaseWorld) -> bool {
    &&& a.system.holds.contains_key(i)
    &&& !a.attempts.contains_key(i)
    &&& doc.owner@ == a.system.owners[i]
    &&& b == LeaseWorld {
        attempts: a.attempts.insert(
            i,
            Pending { attempt: first_attempt(doc, a.now), call: StoreCall::Create(doc) },
        ),
        ..a
    }
}

/// The world once the store has replied to the call of process `i`.
pub open spec fn after_reply(
    a: LeaseWorld,
    i: int,
    reply: StoreReply,
    t: LeaseStore,
) -> LeaseWorld {
    let p = a.attempts[i];
    let system = LeaseSystem { store: t, ..a.system };
    match acquire_step(p.attempt, a.system.owners[i], reply) {
        AcquireStep::Call(stage, call) => LeaseWorld {
            system,
            attempts: a.attempts.insert(
                i,
                Pending { attempt: Acquire { stage, ..p.attempt }, call },
            ),
            ..a
        },
        AcquireStep::Held(v) => LeaseWorld {
            system: LeaseSystem {
                holds: a.system.holds.insert(
                    i,
                    Hold {
                        version: Some(v),
                        expires_at_unix_ms: p.attempt.doc.expires_at_unix_ms,
                    },
                ),
                ..system
            },
            attempts: a.attempts.remove(i),
            ..a
        },
        _ => LeaseWorld { system, attempts: a.attempts.remove(i), ..a },
    }
}

/// The store replies to the call of process `i`.
pub open spec fn replies(
    a: LeaseWorld,
    i: int,
    reply: StoreReply,
    t: LeaseStore,
    b: LeaseWorld,
) -> bool {
    &&& a.attempts.contains_key(i)
    &&& store_step(a.system.store, a.attempts[i].call, reply, t)
    &&& b == after_reply(a, i, reply, t)
}

/// Process `i` refreshes its hold.
pub open spec fn refreshes(
    a: LeaseWorld,
    i: int,
    doc: LeaseDoc,
    reply: Result<UpdateVersion, StoreFailure>,
    t: LeaseStore,
    b: LeaseWorld,
) -> bool {
    &&& a.system.holds.contains_key(i)
    &&& a.system.holds[i].version is Some
    &&& doc.owner@ == a.system.owners[i]
    &&& store_step(
        a.system.store,
        StoreCall::Update(doc, a.system.holds[i].version->0),
        StoreReply::Written(reply),
        t,
    )
    &&& b == LeaseWorld {
        system: LeaseSystem {
            store: t,
            holds: a.system.holds.insert(i, refreshed(a.system.holds[i], doc, reply)),
            ..a.system
        },
        ..a
    }
}

/// Process `i` gives its hold up. Where the document is still its own, it deletes it; where it
/// is a successor's, or cannot be looked up, it leaves it alone. That it looks and that it
/// deletes count as one: a store has no deletion of a given version, and a successor that
/// comes in between loses its document.
pub open spec fn releases(a: LeaseWorld, i: int, b: LeaseWorld) -> bool {
    let holds = a.system.holds.insert(i, released(a.system.holds[i]));
    &&& a.system.holds.contains_key(i)
    &&& {
        ||| is_current(a.system.store, a.system.holds[i]) && b == LeaseWorld {
            system: LeaseSystem {
                store: LeaseStore { current: None, ..a.system.store },
                holds,
                ..a.system
            },
            ..a
        }
        ||| b == LeaseWorld { system: LeaseSystem { holds, ..a.system }, ..a }
    }
}

/// One thing happens.
pub open spec fn happens(a: LeaseWorld, b: LeaseWorld) -> bool {
    ||| exists|i: int, doc: LeaseDoc| #[trigger] starts(a, i, doc, b)
    ||| exists|i: int, reply: StoreReply, t: LeaseStore| #[trigger] replies(a, i, reply, t, b)
    ||| exists|i: int, doc: LeaseDoc, reply: Result<UpdateVersion, StoreFailure>, t: LeaseStore|
     #[trigger]
        refreshes(a, i, doc, reply, t, b)
    ||| exists|i: int| #[trigger] releases(a, i, b)
    ||| a.now <= b.now && b == LeaseWorld { now: b.now, ..a }
}

/// Nobody holds the lease, and nobody is after it. The processes sign with different names.
pub open spec fn is_idle(w: LeaseWorld) -> bool {
    &&& w.system.store.current is Some ==> w.system.store.used.contains(
        w.system.store.current->0.version,
    )
    &&& forall|i: int| #[trigger]
        w.system.holds.contains_key(i) ==> w.system.holds[i].version is None
    &&& forall|i: int, j: int|
        #![trigger w.system.holds.contains_key(i), w.system.holds.contains_key(j)]
        w.system.holds.contains_key(i) && w.system.holds.contains_key(j) && i != j
            ==> w.system.owners[i] != w.system.owners[j]
    &&& forall|i: int| !#[trigger] w.attempts.contains_key(i)
}

/// What may happen, one thing after another.
pub open spec fn is_lease_run(worlds: Seq<LeaseWorld>) -> bool {
    &&& worlds.len() > 0
    &&& is_idle(worlds[0])
    &&& forall|n: int| 0 < n < worlds.len() ==> happens(worlds[n - 1], #[trigger] worlds[n])
}

/// Where the attempt of the process that signs as `owner` has come to, what it knows still
/// holds: the version that it read is that of a document that nobody else held, or is no
/// longer current.
pub open spec fn is_informed(store: LeaseStore, now: i64, p: Pending, owner: Seq<char>) -> bool {
    &&& p.attempt.now_unix_ms <= now
    &&& p.attempt.doc.owner@ == owner
    &&& match p.attempt.stage {
        AcquireStage::Create => p.call == StoreCall::Create(p.attempt.doc),
        AcquireStage::Read => p.call == StoreCall::Read,
        AcquireStage::Update => match p.call {
            StoreCall::Update(doc, version) => {
                &&& doc == p.attempt.doc
                &&& store.used.contains(version)
                &&& store.current is Some && store.current->0.version == version ==> !is_taken(
                    store.current->0.doc,
                    p.attempt.now_unix_ms,
                    owner,
                )
            },
            _ => false,
        },
        _ => false,
    }
}

/// The holds are exclusive, and the attempts informed.
pub open spec fn is_sound(w: LeaseWorld) -> bool {
    &&& is_exclusive(w.system, w.now)
    &&& forall|i: int| #[trigger]
        w.attempts.contains_key(i) ==> w.system.holds.contains_key(i) && is_informed(
            w.system.store,
            w.now,
            w.attempts[i],
            w.system.owners[i],
        )
}

proof fn start_keeps_sound(a: LeaseWorld, i: int, doc: LeaseDoc, b: LeaseWorld)
    requires
        is_sound(a),
        starts(a, i, doc, b),
    ensures
        is_sound(b),
{
    assert forall|k: int| #[trigger] b.attempts.contains_key(k) implies
        b.system.holds.contains_key(k) && is_informed(
        b.system.store,
        b.now,
        b.attempts[k],
        b.system.owners[k],
    ) by {
        if k != i {
            assert(a.attempts.contains_key(k));
        }
    }
}

proof fn reply_keeps_sound(
    a: LeaseWorld,
    i: int,
    reply: StoreReply,
    t: LeaseStore,
    b: LeaseWorld,
)
    requires
        is_sound(a),
        replies(a, i, reply, t, b),
    ensures
        is_sound(b),
{
    let sys = a.system;
    let p = a.attempts[i];
    assert(a.attempts.contains_key(i));
    assert(is_informed(sys.store, a.now, p, sys.owners[i]));
    assert(is_accounted(sys.store, sys.holds[i], sys.owners[i], a.now));
    let hold = match acquire_step(p.attempt, sys.owners[i], reply) {
        AcquireStep::Held(v) => Hold {
            version: Some(v),
            expires_at_unix_ms: p.attempt.doc.expires_at_unix_ms,
        },
        _ => sys.holds[i],
    };
    assert forall|k: int| #[trigger]
        sys.holds.contains_key(k) && k != i && is_current(sys.store, sys.holds[k]) && t
            != sys.store implies sys.holds[k].expires_at_unix_ms <= a.now by {
        assert(is_accounted(sys.store, sys.holds[k], sys.owners[k], a.now));
        assert(sys.owners[k] != sys.owners[i]) by {
            assert(sys.holds.contains_key(i));
        }
    }
    changed_hold_keeps_exclusive(sys, i, hold, t, a.now);
    assert(b.system.holds =~= sys.holds.insert(i, hold));
    assert(b.system == LeaseSystem { store: t, holds: sys.holds.insert(i, hold), ..sys });
    assert forall|k: int| #[trigger] b.attempts.contains_key(k) implies
        b.system.holds.contains_key(k) && is_informed(
        b.system.store,
        b.now,
        b.attempts[k],
        b.system.owners[k],
    ) by {
        assert(a.attempts.contains_key(k));
        assert(is_informed(sys.store, a.now, a.attempts[k], sys.owners[k]));
    }
}

proof fn refresh_keeps_sound(
    a: LeaseWorld,
    i: int,
    doc: LeaseDoc,
    reply: Result<UpdateVersion, StoreFailure>,
    t: LeaseStore,
    b: LeaseWorld,
)
    requires
        is_sound(a),
        refreshes(a, i, doc, reply, t, b),
    ensures
        is_sound(b),
{
    refreshing_keeps_exclusive(a.system, i, doc, a.now, reply, t);
    assert forall|k: int| #[trigger] b.attempts.contains_key(k) implies
        b.system.holds.contains_key(k) && is_informed(
        b.system.store,
        b.now,
        b.attempts[k],
        b.system.owners[k],
    ) by {
        assert(a.attempts.contains_key(k));
        assert(is_informed(a.system.store, a.now, a.attempts[k], a.system.owners[k]));
    }
}

proof fn release_keeps_sound(a: LeaseWorld, i: int, b: LeaseWorld)
    requires
        is_sound(a),
        releases(a, i, b),
    ensures
        is_sound(b),
{
    if is_current(a.system.store, a.system.holds[i]) {
        releasing_keeps_exclusive(a.system, i, a.now);
    }
    giving_up_keeps_exclusive(a.system, i, a.now);
    assert forall|k: int| #[trigger] b.attempts.contains_key(k) implies
        b.system.holds.contains_key(k) && is_informed(
        b.system.store,
        b.now,
        b.attempts[k],
        b.system.owners[k],
    ) by {
        assert(a.attempts.contains_key(k));
        assert(is_informed(a.system.store, a.now, a.attempts[k], a.system.owners[k]));
    }
}

proof fn soundness_is_kept(a: LeaseWorld, b: LeaseWorld)
    requires
        is_sound(a),
        happens(a, b),
    ensures
        is_sound(b),
{
    if exists|i: int, doc: LeaseDoc| #[trigger] starts(a, i, doc, b) {
        let (i, doc) = choose|i: int, doc: LeaseDoc| #[trigger] starts(a, i, doc, b);
        start_keeps_sound(a, i, doc, b);
    } else if exists|i: int, reply: StoreReply, t: LeaseStore| #[trigger]
        replies(a, i, reply, t, b) {
        let (i, reply, t) = choose|i: int, reply: StoreReply, t: LeaseStore| #[trigger]
            replies(a, i, reply, t, b);
        reply_keeps_sound(a, i, reply, t, b);
    } else if exists|
        i: int,
        doc: LeaseDoc,
        reply: Result<UpdateVersion, StoreFailure>,
        t: LeaseStore,
    | #[trigger]
        refreshes(a, i, doc, reply, t, b) {
        let (i, doc, reply, t) = choose|
            i: int,
            doc: LeaseDoc,
            reply: Result<UpdateVersion, StoreFailure>,
            t: LeaseStore,
        | #[trigger]
            refreshes(a, i, doc, reply, t, b);
        refresh_keeps_sound(a, i, doc, reply, t, b);
    } else if exists|i: int| #[trigger] releases(a, i, b) {
        let i = choose|i: int| #[trigger] releases(a, i, b);
        release_keeps_sound(a, i, b);
    } else {
        waiting_keeps_exclusive(a.system, a.now, b.now);
        assert forall|k: int| #[trigger] b.attempts.contains_key(k) implies
            b.system.holds.contains_key(k) && is_informed(
            b.system.store,
            b.now,
            b.attempts[k],
            b.system.owners[k],
        ) by {
            assert(a.attempts.contains_key(k));
            assert(is_informed(a.system.store, a.now, a.attempts[k], a.system.owners[k]));
        }
    }
}

proof fn run_is_sound(worlds: Seq<LeaseWorld>, n: int)
    requires
        is_lease_run(worlds),
        0 <= n < worlds.len(),
    ensures
        is_sound(worlds[n]),
    decreases n,
{
    if n > 0 {
        run_is_sound(worlds, n - 1);
        soundness_is_kept(worlds[n - 1], worlds[n]);
    }
}

/// However the calls of any number of processes interleave, at most one of them leads at any
/// time: on a store that writes conditionally, with clocks that agree, and with processes that
/// sign with different names. (Looking up the document and deleting it, when a hold is
/// released, count as one step: no store deletes conditionally.)
pub proof fn one_leader_throughout(worlds: Seq<LeaseWorld>, n: int, i: int, j: int)
    requires
        is_lease_run(worlds),
        0 <= n < worlds.len(),
        worlds[n].system.holds.contains_key(i),
        worlds[n].system.holds.contains_key(j),
        worlds[n].system.holds[i].leads(worlds[n].now),
        worlds[n].system.holds[j].leads(worlds[n].now),
    ensures
        i == j,
{
    run_is_sound(worlds, n);
    at_most_one_leader(worlds[n].system, worlds[n].now, i, j);
}

} // verus!

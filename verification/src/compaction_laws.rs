//! What holds of compactions.

use vstd::prelude::*;

use crate::compaction::{
    after_adds, claim_age, claim_step, jobs_up_to, of_generation, CatalogTable, ClaimCall,
    ClaimReply, ClaimStage, ClaimStep, CompactionConfig, LAST_GENERATION,
};
use crate::duration::Duration;
use crate::files::{
    has_path, path_set, with_files, DbId, Manifest, ParquetFile, TableEntry, TableId,
};
use crate::fold::{accepted, files_of, folded, with_added, with_removed};
use crate::fold_laws::has_path_without;
use crate::leases::{LeaseError, StoreFailure};
use crate::persisted_files::{after_add, after_remove, FileState};

verus! {

/// A job takes files of one generation to the next: they are all of its source
/// generation, and there are as many as it takes.
pub proof fn jobs_take_one_generation_up(config: CompactionConfig, table: CatalogTable, g: u8)
    requires
        g <= LAST_GENERATION,
    ensures
        forall|n: int| #![trigger jobs_up_to(config, table, g)[n]]
            0 <= n < jobs_up_to(config, table, g).len() ==> {
                let job = jobs_up_to(config, table, g)[n];
                &&& job.target_generation == job.source_generation + 1
                &&& job.source_generation >= 1
                &&& job.target_generation <= LAST_GENERATION
                &&& job.files == of_generation(table.files@, job.source_generation)
                &&& job.files.len() >= config.min_files_for_compaction
                &&& job.files.len() > 0
            },
    decreases g,
{
    if g > 0 {
        jobs_take_one_generation_up(config, table, (g - 1) as u8);
        let before = jobs_up_to(config, table, (g - 1) as u8);
        let all = jobs_up_to(config, table, g);
        assert forall|n: int| #![trigger all[n]] 0 <= n < all.len() implies {
            let job = all[n];
            &&& job.target_generation == job.source_generation + 1
            &&& job.source_generation >= 1
            &&& job.target_generation <= LAST_GENERATION
            &&& job.files == of_generation(table.files@, job.source_generation)
            &&& job.files.len() >= config.min_files_for_compaction
            &&& job.files.len() > 0
        } by {
            if n < before.len() {
                assert(all[n] == before[n]);
            }
        }
    }
}

/// How a store replies to a call on behalf of a claim, where `claim` says when the claim that
/// is there was made, and `after` what is there then. A store that is not `guarded` cannot
/// create conditionally.
pub open spec fn claim_store_step(
    guarded: bool,
    claim: Option<i64>,
    call: ClaimCall,
    reply: ClaimReply,
    after: Option<i64>,
) -> bool {
    match call {
        ClaimCall::Create { acquired_at_unix_ms } => if !guarded {
            reply == ClaimReply::Written(Err(StoreFailure::NotSupported)) && after == claim
        } else if claim is Some {
            reply == ClaimReply::Written(Err(StoreFailure::AlreadyExists)) && after == claim
        } else {
            reply == ClaimReply::Written(Ok(())) && after == Some(acquired_at_unix_ms)
        },
        ClaimCall::Read => after == claim && match claim {
            Some(acquired_at) => reply == ClaimReply::Claim(Ok(acquired_at)),
            None => reply == ClaimReply::Claim(
                Err(LeaseError::ObjectStore(StoreFailure::NotFound)),
            ),
        },
        ClaimCall::Put { acquired_at_unix_ms } => reply == ClaimReply::Written(Ok(())) && after
            == Some(acquired_at_unix_ms),
    }
}

/// An attempt to claim at `now`, with `call` out and nobody else writing meanwhile, ends in
/// `end` and leaves the claim as `after`, after at most `calls` calls.
pub open spec fn claim_runs_to(
    guarded: bool,
    now: i64,
    ttl: Duration,
    stage: ClaimStage,
    call: ClaimCall,
    claim: Option<i64>,
    end: ClaimStep,
    after: Option<i64>,
    calls: nat,
) -> bool
    decreases calls,
{
    calls > 0 && exists|reply: ClaimReply, then: Option<i64>| #[trigger]
        claim_store_step(guarded, claim, call, reply, then) && match claim_step(
            stage,
            now,
            ttl,
            reply,
        ) {
            ClaimStep::Call(next, out) => claim_runs_to(
                guarded,
                now,
                ttl,
                next,
                out,
                then,
                end,
                after,
                (calls - 1) as nat,
            ),
            done => end == done && after == then,
        }
}

proof fn one_claim_call(
    guarded: bool,
    now: i64,
    ttl: Duration,
    stage: ClaimStage,
    call: ClaimCall,
    claim: Option<i64>,
    end: ClaimStep,
    after: Option<i64>,
    calls: nat,
) -> (r: (ClaimReply, Option<i64>))
    requires
        claim_runs_to(guarded, now, ttl, stage, call, claim, end, after, calls),
    ensures
        calls > 0,
        claim_store_step(guarded, claim, call, r.0, r.1),
        match claim_step(stage, now, ttl, r.0) {
            ClaimStep::Call(next, out) => claim_runs_to(
                guarded,
                now,
                ttl,
                next,
                out,
                r.1,
                end,
                after,
                (calls - 1) as nat,
            ),
            done => end == done && after == r.1,
        },
{
    choose|reply: ClaimReply, then: Option<i64>| #[trigger]
        claim_store_step(guarded, claim, call, reply, then) && match claim_step(
            stage,
            now,
            ttl,
            reply,
        ) {
            ClaimStep::Call(next, out) => claim_runs_to(
                guarded,
                now,
                ttl,
                next,
                out,
                then,
                end,
                after,
                (calls - 1) as nat,
            ),
            done => end == done && after == then,
        }
}

/// A claim is honoured on every store, whether or not it can create conditionally: an attempt
/// that finds one younger than its lifetime ends refused and leaves it as it is. Where there
/// is none, or a stale one, the attempt makes its own.
pub proof fn claim_is_honoured(
    guarded: bool,
    now: i64,
    ttl: Duration,
    claim: Option<i64>,
    end: ClaimStep,
    after: Option<i64>,
    calls: nat,
)
    requires
        claim_runs_to(
            guarded,
            now,
            ttl,
            ClaimStage::Create,
            ClaimCall::Create { acquired_at_unix_ms: now },
            claim,
            end,
            after,
            calls,
        ),
    ensures
        match claim {
            Some(acquired_at) if claim_age(now, acquired_at) < ttl.millis() => end
                == ClaimStep::Refused && after == claim,
            _ => end == ClaimStep::Held && after == Some(now),
        },
{
    let create = ClaimCall::Create { acquired_at_unix_ms: now };
    let put = ClaimCall::Put { acquired_at_unix_ms: now };
    let c1 = (calls - 1) as nat;
    let c2 = (calls - 2) as nat;
    let (r0, t0) = one_claim_call(
        guarded,
        now,
        ttl,
        ClaimStage::Create,
        create,
        claim,
        end,
        after,
        calls,
    );
    if claim is Some || !guarded {
        let stage = if guarded {
            ClaimStage::Read
        } else {
            ClaimStage::ReadUnguarded
        };
        assert(claim_step(ClaimStage::Create, now, ttl, r0) == ClaimStep::Call(
            stage,
            ClaimCall::Read,
        ));
        let (r1, t1) = one_claim_call(
            guarded,
            now,
            ttl,
            stage,
            ClaimCall::Read,
            claim,
            end,
            after,
            c1,
        );
        if !(claim is Some && claim_age(now, claim->0) < ttl.millis()) {
            assert(claim_step(stage, now, ttl, r1) == ClaimStep::Call(ClaimStage::Put, put));
            let (r2, t2) = one_claim_call(
                guarded,
                now,
                ttl,
                ClaimStage::Put,
                put,
                claim,
                end,
                after,
                c2,
            );
        }
    }
}

/// Once a compaction is applied, its inputs are gone from the table.
pub proof fn compaction_removes_inputs(
    t: FileState,
    key: (DbId, TableId),
    new_files: Seq<ParquetFile>,
    old_files: Seq<ParquetFile>,
    p: Seq<char>,
)
    requires
        has_path(old_files, p),
    ensures
        !has_path(
            files_of(
                after_remove(after_adds(t, key, new_files), key, path_set(old_files)).files,
                key,
            ),
            p,
        ),
{
    let grown = after_adds(t, key, new_files);
    if grown.files.contains_key(key) {
        has_path_without(grown.files[key], path_set(old_files), p);
    }
}

/// A peer that folds the manifest of a compaction ends with the same files in the table
/// as the compactor itself, given that the compacted file is new.
pub proof fn peers_agree_on_compaction(
    t: FileState,
    key: (DbId, TableId),
    new_file: ParquetFile,
    old_files: Seq<ParquetFile>,
    manifest: Manifest,
    source: Option<Seq<char>>,
)
    requires
        manifest.added == with_files(Seq::empty(), key, seq![new_file]),
        manifest.removed == seq![TableEntry { key, files: old_files }],
        !has_path(files_of(t.files, key), new_file.path@),
        !t.tombstones.contains_key(new_file.path@),
    ensures
        files_of(folded(t.live(), manifest, source).files, key) == files_of(
            after_remove(
                after_adds(t, key, seq![new_file]),
                key,
                path_set(old_files),
            ).files,
            key,
        ),
{
    let existing = files_of(t.files, key);
    let one = seq![new_file];
    let list = manifest.added;
    assert(one.drop_last() =~= Seq::empty());
    assert(with_files(Seq::empty(), key, one.drop_last()) == Seq::<TableEntry>::empty());
    let entry = TableEntry { key, files: seq![new_file] };
    assert(list =~= seq![entry]);
    assert(list.drop_last() =~= Seq::empty());
    let stones = t.tombstones.dom();
    let grown = with_added(t.files, list, stones);
    assert(accepted(existing, one.drop_last(), stones) == Seq::<ParquetFile>::empty());
    assert(existing + Seq::<ParquetFile>::empty() =~= existing);
    assert(accepted(existing, one, stones) =~= seq![new_file]);
    assert(existing + seq![new_file] =~= existing.push(new_file));
    assert(with_added(t.files, list.drop_last(), stones) == t.files);
    assert(grown == t.files.insert(key, existing.push(new_file)));
    let removed = manifest.removed;
    assert(removed.drop_last() =~= Seq::empty());
    assert(with_removed(grown, removed.drop_last()) == grown);
    let applied = after_adds(t, key, one);
    assert(after_adds(t, key, one.drop_last()) == t);
    assert(applied == after_add(t, key, new_file));
    assert forall|i: int| 0 <= i < existing.len() implies !(#[trigger] existing[i]).matches(
        new_file,
    ) by {
        assert(existing[i].path@ != new_file.path@);
    }
}

} // verus!

//! What a compaction makes of its inputs.

use vstd::prelude::*;

use crate::chunk::{generation_is_read_from_its_directory, no_directory_no_generation};
use crate::compaction::{
    after_adds, all_usable, claim_step, column_failure, file_generation, files_together,
    first_unusable, has_known_generations, is_first_failure, is_longest_fit, is_result_of,
    next_count, output_chunk_time, time_range, with_rows, BatchTimes, CatalogTable, ClaimCall,
    ClaimReply, ClaimStage, ClaimStep, CompactedOutput,
    CompactionConfig, CompactionError, CompactionResult, CompactionService, Job, TimeColumn,
};
use crate::compaction_laws::{claim_is_honoured, claim_runs_to};
use crate::compaction_paths::{
    claim_path_text, compacted_path_text, date_segments, table_dir_text,
};
use crate::compaction_run::{
    after_job, JobAction, JobEvent, JobFailure, JobRun, JobStage,
};
use crate::duration::Duration;
use crate::files::{has_path, path_set, with_files, DbId, ParquetFile, TableEntry, TableId};
use crate::fold::{files_of, total_bytes};
use crate::fold_laws::{has_path_push, is_listed};
use crate::job_laws::{is_time_of, range_covers_batches};
use crate::leases::LeaseError;
use crate::object_path::stored_path;
use crate::persisted_files::{after_add, FileState};
use crate::text::{
    decimal_text, decimal_text_denotes, ends_with, is_digit, segments, split_on_absent,
    split_on_concat, split_on_join, starts_with,
};
use crate::tracking_laws::{added_file_is_there, listed_file_is_listed, removed_files_are_gone};

verus! {

/// The chunk time of a compacted file is a multiple of the duration of its generation, less than
/// one duration away from the earliest time, and on the side of the epoch.
pub proof fn chunk_time_is_within_one_duration(
    config: CompactionConfig,
    generation: u8,
    min_time: i64,
    width: i64,
)
    requires
        width > 0,
        config.generation_durations@.contains_key(generation),
        config.generation_durations@[generation].nanos == width,
    ensures
        output_chunk_time(config, generation, min_time) % (width as int) == 0,
        min_time >= 0 ==> output_chunk_time(config, generation, min_time) <= min_time
            < output_chunk_time(config, generation, min_time) + width,
        min_time < 0 ==> min_time <= output_chunk_time(config, generation, min_time) < min_time
            + width && output_chunk_time(config, generation, min_time) <= 0,
{
    let w = width as int;
    let time = min_time as int;
    let size = if time >= 0 {
        time
    } else {
        -time
    };
    let q = size / w;
    vstd::arithmetic::div_mod::lemma_mod_multiples_basic(q, w);
    vstd::arithmetic::div_mod::lemma_mod_multiples_basic(-q, w);
    assert(-(q * w) == (-q) * w) by (nonlinear_arith);
    assert(q * w <= size && size < q * w + w && q * w >= 0) by (nonlinear_arith)
        requires
            w > 0,
            size >= 0,
            q == size / w,
    ;
}

/// The batches that a file is made from are those that hold rows, in order.
pub proof fn batches_with_rows_are_kept(batches: Seq<BatchTimes>, b: BatchTimes)
    ensures
        with_rows(batches).contains(b) == (batches.contains(b) && b.num_rows > 0),
    decreases batches.len(),
{
    reveal(Seq::filter);
    if batches.len() > 0 {
        let rest = batches.drop_last();
        let kept = with_rows(batches);
        let before = with_rows(rest);
        batches_with_rows_are_kept(rest, b);
        assert(batches[batches.len() - 1] == batches.last());
        if before.contains(b) {
            let i = choose|i: int| 0 <= i < before.len() && before[i] == b;
            assert(kept[i] == b);
        }
        if rest.contains(b) {
            let i = choose|i: int| 0 <= i < rest.len() && rest[i] == b;
            assert(batches[i] == b);
        }
        if b == batches.last() && b.num_rows > 0 {
            assert(kept[kept.len() - 1] == b);
        }
        if batches.contains(b) && b != batches.last() {
            let i = choose|i: int| 0 <= i < batches.len() && batches[i] == b;
            assert(rest[i] == b);
        }
        if kept.contains(b) && !before.contains(b) {
            let i = choose|i: int| 0 <= i < kept.len() && kept[i] == b;
            if i < before.len() {
                assert(before[i] == b);
            }
        }
    } else {
        assert(with_rows(batches).len() == 0);
    }
}

/// The file that a job writes covers the times of every batch with rows, and begins and ends at a
/// time of one; without rows there is none.
pub proof fn output_covers_its_rows(
    service: CompactionService,
    job: Job,
    batches: Seq<BatchTimes>,
    id: Seq<char>,
    r: Result<Option<CompactedOutput>, CompactionError>,
)
    requires
        service.is_output_of(job, batches, id, r),
    ensures
        r == Ok::<Option<CompactedOutput>, CompactionError>(None) <==> forall|i: int|
            0 <= i < batches.len() ==> (#[trigger] batches[i]).num_rows == 0,
        match r {
            Ok(Some(out)) => {
                &&& forall|i: int|
                    #![trigger batches[i]]
                    0 <= i < batches.len() && batches[i].num_rows > 0 ==> {
                        &&& batches[i].time is Nanoseconds || batches[i].time is Empty
                        &&& batches[i].time is Nanoseconds ==> {
                            &&& out.min_time <= batches[i].time->first
                            &&& out.min_time <= batches[i].time->last
                            &&& batches[i].time->first <= out.max_time
                            &&& batches[i].time->last <= out.max_time
                        }
                    }
                &&& exists|i: int|
                    0 <= i < batches.len() && is_time_of(#[trigger] batches[i], out.min_time)
                &&& exists|i: int|
                    0 <= i < batches.len() && is_time_of(#[trigger] batches[i], out.max_time)
            },
            _ => true,
        },
{
    let full = with_rows(batches);
    assert forall|b: BatchTimes| full.contains(b) == (batches.contains(b) && b.num_rows > 0) by {
        batches_with_rows_are_kept(batches, b);
    }
    if full.len() > 0 {
        assert(full.contains(full[0]));
        let i = choose|i: int| 0 <= i < batches.len() && batches[i] == full[0];
        assert(batches[i].num_rows > 0);
    } else {
        assert forall|i: int| 0 <= i < batches.len() implies (#[trigger] batches[i]).num_rows
            == 0 by {
            if batches[i].num_rows > 0 {
                assert(full.contains(batches[i]));
            }
        }
    }
    if let Ok(Some(out)) = r {
        range_covers_batches(full);
        assert forall|i: int|
            #![trigger batches[i]]
            0 <= i < batches.len() && batches[i].num_rows > 0 implies {
            &&& batches[i].time is Nanoseconds || batches[i].time is Empty
            &&& batches[i].time is Nanoseconds ==> {
                &&& out.min_time <= batches[i].time->first
                &&& out.min_time <= batches[i].time->last
                &&& batches[i].time->first <= out.max_time
                &&& batches[i].time->last <= out.max_time
            }
        } by {
            assert(full.contains(batches[i]));
            let n = choose|n: int| 0 <= n < full.len() && full[n] == batches[i];
            assert(column_failure(full[n]) is None);
        }
        rows_need_times(full);
        let low = choose|n: int|
            0 <= n < full.len() && is_time_of(#[trigger] full[n], out.min_time);
        let high = choose|n: int|
            0 <= n < full.len() && is_time_of(#[trigger] full[n], out.max_time);
        assert(full.contains(full[low]) && full.contains(full[high]));
        let a = choose|i: int| 0 <= i < batches.len() && batches[i] == full[low];
        let b = choose|i: int| 0 <= i < batches.len() && batches[i] == full[high];
        assert(is_time_of(batches[a], out.min_time) && is_time_of(batches[b], out.max_time));
    }
}

proof fn rows_need_times(batches: Seq<BatchTimes>)
    ensures
        time_range(batches).rows > 0 ==> exists|i: int|
            0 <= i < batches.len() && (#[trigger] batches[i]).time is Nanoseconds,
    decreases batches.len(),
{
    if batches.len() > 0 {
        let rest = batches.drop_last();
        rows_need_times(rest);
        assert(batches[batches.len() - 1] == batches.last());
        if time_range(rest).rows > 0 {
            let i = choose|i: int| 0 <= i < rest.len() && (#[trigger] rest[i]).time is Nanoseconds;
            assert(batches[i] == rest[i]);
        }
    }
}

/// A job whose rows all have times, and whose target generation has a duration, writes a file;
/// a batch with rows but without a usable time column fails it.
pub proof fn usable_rows_are_written(
    service: CompactionService,
    job: Job,
    batches: Seq<BatchTimes>,
    id: Seq<char>,
    r: Result<Option<CompactedOutput>, CompactionError>,
)
    requires
        service.is_output_of(job, batches, id, r),
        exists|i: int| 0 <= i < batches.len() && (#[trigger] batches[i]).num_rows > 0,
    ensures
        (forall|i: int|
            0 <= i < batches.len() && (#[trigger] batches[i]).num_rows > 0
                ==> batches[i].time is Nanoseconds)
            && service.settings().generation_durations@.contains_key(job.target_generation)
            ==> r is Ok && r->Ok_0 is Some,
        (exists|i: int|
            0 <= i < batches.len() && (#[trigger] batches[i]).num_rows > 0 && (
            batches[i].time is Missing || batches[i].time is OtherType)) ==> r is Err,
        !service.settings().generation_durations@.contains_key(job.target_generation) ==> r is Err,
{
    let full = with_rows(batches);
    assert forall|b: BatchTimes| full.contains(b) == (batches.contains(b) && b.num_rows > 0) by {
        batches_with_rows_are_kept(batches, b);
    }
    let some = choose|i: int| 0 <= i < batches.len() && (#[trigger] batches[i]).num_rows > 0;
    assert(full.contains(batches[some]));
    if forall|i: int|
        0 <= i < batches.len() && (#[trigger] batches[i]).num_rows > 0
            ==> batches[i].time is Nanoseconds {
        assert forall|n: int| 0 <= n < full.len() implies (#[trigger] full[n]).time is Nanoseconds
            && full[n].num_rows > 0 by {
            assert(full.contains(full[n]));
            let i = choose|i: int| 0 <= i < batches.len() && batches[i] == full[n];
            assert(batches[i].num_rows > 0);
        }
        timed_rows_count(full);
        assert(all_usable(full));
        if r is Err {
            assert forall|i: int| !first_unusable(full, i) by {}
        }
    }
    if exists|i: int|
        0 <= i < batches.len() && (#[trigger] batches[i]).num_rows > 0 && (
        batches[i].time is Missing || batches[i].time is OtherType) {
        let i = choose|i: int|
            0 <= i < batches.len() && (#[trigger] batches[i]).num_rows > 0 && (
            batches[i].time is Missing || batches[i].time is OtherType);
        assert(full.contains(batches[i]));
        let n = choose|n: int| 0 <= n < full.len() && full[n] == batches[i];
        assert(column_failure(full[n]) is Some);
    }
}

proof fn timed_rows_count(batches: Seq<BatchTimes>)
    requires
        batches.len() > 0,
        forall|n: int|
            0 <= n < batches.len() ==> (#[trigger] batches[n]).time is Nanoseconds
                && batches[n].num_rows > 0,
    ensures
        time_range(batches).rows > 0,
{
    assert(batches[batches.len() - 1] == batches.last());
}

/// What is known of an output is what is known of its file.
pub proof fn file_is_its_output(out: CompactedOutput, id: u64, size: u64)
    ensures
        out.as_file(id, size).id == id,
        out.as_file(id, size).size_bytes == size,
        out.as_file(id, size).path == out.path,
        out.as_file(id, size).row_count == out.row_count,
        out.as_file(id, size).chunk_time == out.chunk_time,
        out.as_file(id, size).min_time == out.min_time,
        out.as_file(id, size).max_time == out.max_time,
{
}

proof fn with_files_lists(
    list: Seq<TableEntry>,
    key: (DbId, TableId),
    files: Seq<ParquetFile>,
    k: (DbId, TableId),
    p: Seq<char>,
)
    ensures
        is_listed(with_files(list, key, files), k, p) == (is_listed(list, k, p) || (k == key
            && has_path(files, p))),
    decreases files.len(),
{
    if files.len() > 0 {
        let rest = files.drop_last();
        with_files_lists(list, key, rest, k, p);
        listed_file_is_listed(with_files(list, key, rest), key, files.last(), k, p);
        has_path_push(rest, files.last(), p);
        assert(rest.push(files.last()) =~= files);
    }
}

/// The manifest of a compaction adds the new files to the table of the job and removes the old
/// ones from it, and says nothing of any other table or of the log; it is signed by the host.
pub proof fn manifest_swaps_files(
    service: CompactionService,
    catalog: u64,
    job: Job,
    new_files: Seq<ParquetFile>,
    old_files: Seq<ParquetFile>,
    k: (DbId, TableId),
    p: Seq<char>,
)
    ensures
        ({
            let m = service.job_manifest(catalog, job, new_files, old_files);
            let own = k.0 == job.database_id && k.1 == job.table_id;
            &&& is_listed(m.added, k, p) == (own && has_path(new_files, p))
            &&& is_listed(m.removed, k, p) == (own && has_path(old_files, p))
            &&& m.node_id == service.host_text()
            &&& m.snapshot_sequence_number == 0
            &&& m.wal_file_sequence_number == 0
            &&& m.catalog_sequence_number == catalog
        }),
{
    let key = (job.database_id, job.table_id);
    with_files_lists(Seq::empty(), key, new_files, k, p);
    assert(!is_listed(Seq::<TableEntry>::empty(), k, p));
    let m = service.job_manifest(catalog, job, new_files, old_files);
    if k == key && has_path(old_files, p) {
        assert(m.removed[0].key == k && has_path(m.removed[0].files, p));
    }
}

/// Once a job is published, its table holds the compacted file and every file that it held before
/// and that was not an input; no input is left, and no other table changes.
pub proof fn job_replaces_its_inputs(
    t: FileState,
    job: Job,
    file: ParquetFile,
    f: ParquetFile,
    k: (DbId, TableId),
)
    requires
        !has_path(job.files, file.path@),
    ensures
        ({
            let key = (job.database_id, job.table_id);
            let after = after_job(t, job, file);
            &&& has_path(files_of(after.files, key), file.path@)
            &&& has_path(job.files, f.path@) ==> !files_of(after.files, key).contains(f)
            &&& files_of(t.files, key).contains(f) && !has_path(job.files, f.path@) ==> files_of(
                after.files,
                key,
            ).contains(f)
            &&& k != key ==> files_of(after.files, k) == files_of(t.files, k)
            &&& after.tombstones == t.tombstones
        }),
{
    let key = (job.database_id, job.table_id);
    let one = seq![file];
    assert(one.drop_last() =~= Seq::empty());
    assert(after_adds(t, key, one.drop_last()) == t);
    let grown = after_add(t, key, file);
    assert(after_adds(t, key, one) == grown);
    added_file_is_there(t, key, file);
    let paths = path_set(job.files);
    removed_files_are_gone(grown, key, paths, f);
    let list = files_of(grown.files, key);
    let i = choose|i: int|
        #![trigger list[i]]
        0 <= i < list.len() && list[i].path@ == file.path@;
    removed_files_are_gone(grown, key, paths, list[i]);
    let left = files_of(after_job(t, job, file).files, key);
    assert(left.contains(list[i]));
    let n = choose|n: int| 0 <= n < left.len() && left[n] == list[i];
    assert(left[n].path@ == file.path@);
    if files_of(t.files, key).contains(f) {
        let own = files_of(t.files, key);
        let m = choose|m: int| 0 <= m < own.len() && own[m] == f;
        assert(list[m] == f);
    }
}

/// The result of a job names the file that it wrote and every input, and says how many bytes are
/// saved and how many rows were written; one that wrote nothing names nothing.
pub proof fn result_says_what_was_done(job: Job, output: Option<ParquetFile>, r: CompactionResult)
    requires
        is_result_of(job, output, r),
    ensures
        output is None ==> r.compacted_files@.len() == 0 && r.deleted_files@.len() == 0
            && r.total_size_reduction == 0 && r.total_rows_compacted == 0,
        output is Some ==> r.compacted_files@ == seq![output->0] && r.deleted_files@ == job.files
            && r.total_rows_compacted == output->0.row_count,
        output is Some && output->0.size_bytes <= total_bytes(job.files) <= u64::MAX
            ==> r.total_size_reduction + output->0.size_bytes == total_bytes(job.files),
        output is Some && total_bytes(job.files) <= output->0.size_bytes ==> r.total_size_reduction
            == 0,
{
}

/// A claim that is younger than its lifetime, or from the future, is left alone on every store;
/// one that is as old as its lifetime or older, or none, is replaced by the attempt's own.
pub proof fn young_claim_is_left_alone(
    guarded: bool,
    now: i64,
    ttl: Duration,
    ms: nat,
    claim: Option<i64>,
    end: ClaimStep,
    after: Option<i64>,
    calls: nat,
)
    requires
        ms > 0,
        ttl.nanos == ms * 1_000_000,
        claim_runs_to(
            guarded,
            now,
            ttl,
            ClaimStage::Create,
            ClaimCall::Create { acquired_at_unix_ms: now },
            claim,
            end,
            after,
            calls,
        ),
    ensures
        claim is Some && now - claim->0 < ms ==> end == ClaimStep::Refused && after == claim,
        !(claim is Some && now - claim->0 < ms) ==> end == ClaimStep::Held && after == Some(now),
{
    claim_is_honoured(guarded, now, ttl, claim, end, after, calls);
    assert(ttl.millis() == ms) by (nonlinear_arith)
        requires
            ttl.nanos as int == ms as int * 1_000_000,
            ttl.millis() == ttl.nanos as int / 1_000_000,
    ;
}

/// How far a stage is from the first call of an attempt to claim.
pub open spec fn claim_calls_before(stage: ClaimStage) -> nat {
    match stage {
        ClaimStage::Create => 0,
        ClaimStage::Read => 1,
        ClaimStage::ReadUnguarded => 1,
        ClaimStage::Put => 2,
    }
}

/// An attempt to claim ends after three calls at most, whatever the store replies, writes nothing
/// but a claim as of now, and holds it only once that is written.
pub proof fn claim_attempt_ends(stage: ClaimStage, now: i64, ttl: Duration, reply: ClaimReply)
    ensures
        match claim_step(stage, now, ttl, reply) {
            ClaimStep::Call(next, call) => claim_calls_before(next) == claim_calls_before(stage) + 1
                && match call {
                ClaimCall::Create { .. } => false,
                ClaimCall::Read => next is Read || next is ReadUnguarded,
                ClaimCall::Put { acquired_at_unix_ms } => next is Put && acquired_at_unix_ms == now,
            },
            ClaimStep::Held => reply is Written && reply->Written_0 is Ok,
            ClaimStep::Refused => reply is Claim && reply->Claim_0 is Ok,
            ClaimStep::Failed(_) => true,
        },
        forall|e: String| #[trigger]
            claim_step(
                ClaimStage::Create,
                now,
                ttl,
                ClaimReply::Written(Err(crate::leases::StoreFailure::Other(e))),
            ) == ClaimStep::Failed(
                LeaseError::ObjectStore(crate::leases::StoreFailure::Other(e)),
            ),
{
}

/// Cycles are counted one by one.
pub proof fn cycles_are_counted(count: u64)
    requires
        count < u64::MAX,
    ensures
        next_count(count) == count + 1,
{
}

/// The files of jobs add up, and one job has its own.
pub proof fn job_files_add_up(a: Seq<usize>, b: Seq<usize>, n: usize)
    ensures
        files_together(a + b) == files_together(a) + files_together(b),
        files_together(seq![n]) == n,
    decreases b.len(),
{
    let one = seq![n];
    assert(one.drop_last() =~= Seq::empty());
    assert(files_together(one.drop_last()) == 0);
    if b.len() == 0 {
        assert(a + b =~= a);
    } else {
        job_files_add_up(a, b.drop_last(), n);
        assert((a + b).drop_last() =~= a + b.drop_last());
    }
}

/// A cycle runs its first job unless nothing may be compacted, all jobs where they fit together,
/// and no second job with which the limit is passed.
pub proof fn cycle_runs_what_fits(counts: Seq<usize>, limit: usize, n: int)
    requires
        is_longest_fit(counts, limit, n),
    ensures
        0 <= n <= counts.len(),
        limit == 0 ==> n == 0,
        limit > 0 && counts.len() > 0 ==> n >= 1,
        limit > 0 && files_together(counts) <= limit ==> n == counts.len(),
        n >= 2 ==> counts[0] + counts[1] <= limit,
        forall|m: int|
            1 <= m <= counts.len() && limit > 0 && files_together(#[trigger] counts.take(m))
                <= limit ==> m <= n,
{
    assert forall|m: int|
        1 <= m <= counts.len() && limit > 0 && files_together(#[trigger] counts.take(m))
            <= limit implies m <= n by {
        if m > n {
            let more = counts.take(m).skip(n + 1);
            assert(counts.take(m) =~= counts.take(n + 1) + more);
            job_files_add_up(counts.take(n + 1), more, 0);
        }
    }
    assert(counts.take(counts.len() as int) =~= counts);
    if n >= 2 {
        let more = counts.take(n).skip(2);
        assert(counts.take(n) =~= (seq![counts[0]] + seq![counts[1]]) + more);
        job_files_add_up(seq![counts[0]] + seq![counts[1]], more, 0);
        job_files_add_up(seq![counts[0]], seq![counts[1]], counts[0]);
        job_files_add_up(seq![counts[0]], seq![counts[1]], counts[1]);
    }
}

/// A file is of the generation that a directory of its path names, if that is one of the five,
/// and of the first where none does; any other number fails.
pub proof fn file_is_of_the_generation_of_its_directory(file: ParquetFile, at: int, n: u8)
    requires
        1 <= at,
        at + 1 < segments(file.path@).len(),
        segments(file.path@)[at] == seq!['g', 'e', 'n'] + decimal_text(n as nat),
        forall|k: int|
            1 <= k < at ==> !starts_with(#[trigger] segments(file.path@)[k], seq!['g', 'e', 'n']),
    ensures
        1 <= n <= 5 ==> file_generation(file) == Ok::<u8, CompactionError>(n),
        n == 0 || n > 5 ==> file_generation(file) == Err::<u8, CompactionError>(
            CompactionError::InvalidGeneration { generation: n, path: file.path },
        ),
{
    generation_is_read_from_its_directory(file.path@, at, n);
}

/// A file that no directory of its path assigns to a generation is of the first.
pub proof fn file_without_directory_is_of_the_first(file: ParquetFile)
    requires
        forall|k: int|
            1 <= k < segments(file.path@).len() - 1 ==> !starts_with(
                #[trigger] segments(file.path@)[k],
                seq!['g', 'e', 'n'],
            ),
    ensures
        file_generation(file) == Ok::<u8, CompactionError>(1),
{
    no_directory_no_generation(file.path@);
    crate::chunk::no_directory_no_text(file.path@);
}

/// A job goes on as long as all goes well: a claim that is written leads to the merge, rows that
/// can be written to their upload, the upload to the manifest that names the file, and the
/// manifest, once durable, to its being shared where there is somebody to share it with.
pub proof fn job_goes_on(
    service: CompactionService,
    run: JobRun,
    event: JobEvent,
    shares: bool,
    files: FileState,
    next: JobRun,
    action: JobAction,
    after: FileState,
)
    requires
        service.job_step(run, event, shares, files, next, action, after),
    ensures
        match (run.stage, event) {
            (
                JobStage::Claiming(ClaimStage::Create),
                JobEvent::Claim(ClaimReply::Written(Ok(_))),
            ) => next.stage is Merging && action is Merge && after == files,
            (
                JobStage::Claiming(ClaimStage::Put),
                JobEvent::Claim(ClaimReply::Written(Ok(_))),
            ) => next.stage is Merging && action is Merge && after == files,
            (JobStage::Merging, JobEvent::Merged(Ok(batches))) => after == files && (((exists|
                i: int,
            | 0 <= i < batches@.len() && (#[trigger] batches@[i]).num_rows > 0) && (forall|i: int|
                0 <= i < batches@.len() && (#[trigger] batches@[i]).num_rows > 0
                    ==> batches@[i].time is Nanoseconds)
                && service.settings().generation_durations@.contains_key(
                run.job@.target_generation,
            )) ==> next.stage is Uploading && action is Upload),
            (
                JobStage::Uploading { output, .. },
                JobEvent::Uploaded { outcome: Ok((id, size)), .. },
            ) => after == files && next.stage is Persisting && action is Persist
                && next.stage->Persisting_file == output.as_file(id, size),
            (JobStage::Persisting { .. }, JobEvent::Persisted(Ok(_))) => if shares {
                next.stage is Publishing && action is Publish && after == files
            } else {
                next.stage is Ended && action is End
            },
            (JobStage::Publishing { .. }, JobEvent::Published) => next.stage is Ended
                && action is End,
            _ => true,
        },
        next.job == run.job,
{
    if run.stage is Merging && event is Merged && event->Merged_0 is Ok {
        let batches = event->Merged_0->Ok_0;
        if !(next.stage is Uploading && action is Upload) {
            let o = choose|o: Result<Option<ParquetFile>, JobFailure>| #[trigger]
                service.has_no_output(run.job@, batches@, o)
                    && crate::compaction_run::ends_with_outcome(run, next, action, o);
            let id = choose|id: Seq<char>| #[trigger]
                crate::shared_inventory::is_id_text(id) && match o {
                    Ok(None) => service.is_output_of(run.job@, batches@, id, Ok(None)),
                    Err(JobFailure::Output(e)) => service.is_output_of(
                        run.job@,
                        batches@,
                        id,
                        Err(e),
                    ),
                    _ => false,
                };
            if exists|i: int| 0 <= i < batches@.len() && (#[trigger] batches@[i]).num_rows > 0 {
                match o {
                    Ok(None) => {
                        usable_rows_are_written(service, run.job@, batches@, id, Ok(None));
                        output_covers_its_rows(service, run.job@, batches@, id, Ok(None));
                    },
                    Err(JobFailure::Output(e)) => {
                        usable_rows_are_written(service, run.job@, batches@, id, Err(e));
                    },
                    _ => {},
                }
            }
        }
    }
}

/// How a job ends. Where the manifest is durable, and shared if there is somebody to share it
/// with, the result names the compacted file and all inputs, the inputs are replaced, and the
/// claim is to be released. A failure on the way leaves the tracked files alone and is handed on,
/// and the claim, which is held by then, is to be released.
pub proof fn job_ends_with_its_result(
    service: CompactionService,
    run: JobRun,
    event: JobEvent,
    shares: bool,
    files: FileState,
    next: JobRun,
    action: JobAction,
    after: FileState,
)
    requires
        service.job_step(run, event, shares, files, next, action, after),
    ensures
        match (run.stage, event) {
            (JobStage::Persisting { file, .. }, JobEvent::Persisted(Ok(_))) => !shares ==> {
                &&& is_success(action, run.job@, file)
                &&& after == after_job(files, run.job@, file)
            },
            (JobStage::Publishing { file }, JobEvent::Published) => {
                &&& is_success(action, run.job@, file)
                &&& after == after_job(files, run.job@, file)
            },
            (JobStage::Merging, JobEvent::Merged(Err(e))) => is_failure(action, e) && after
                == files,
            (
                JobStage::Uploading { .. },
                JobEvent::Uploaded { outcome: Err(e), .. },
            ) => is_failure(action, e) && after == files,
            (JobStage::Persisting { .. }, JobEvent::Persisted(Err(e))) => is_failure(action, e)
                && after == files,
            (JobStage::Claiming(_), _) => after == files && (action is End
                ==> !action->release_claim),
            _ => true,
        },
{
}

/// The job is over and has written this file in place of its inputs.
pub open spec fn is_success(action: JobAction, job: Job, file: ParquetFile) -> bool {
    match action {
        JobAction::End { outcome: Ok(result), release_claim } => {
            &&& release_claim
            &&& result.compacted_files@ == seq![file]
            &&& result.deleted_files@ == job.files
            &&& result.total_rows_compacted == file.row_count
        },
        _ => false,
    }
}

/// The job is over for what went wrong outside.
pub open spec fn is_failure(action: JobAction, e: String) -> bool {
    match action {
        JobAction::End { outcome: Err(f), release_claim } => release_claim && f
            == JobFailure::Outside(e),
        _ => false,
    }
}

/// A job whose claim is another's ends without having done anything, and deletes nothing.
pub proof fn refused_job_does_nothing(
    service: CompactionService,
    run: JobRun,
    shares: bool,
    files: FileState,
    next: JobRun,
    action: JobAction,
    after: FileState,
    acquired_at: i64,
)
    requires
        run.stage == JobStage::Claiming(ClaimStage::Read) || run.stage == JobStage::Claiming(
            ClaimStage::ReadUnguarded,
        ),
        run.started_at_unix_ms <= acquired_at,
        service.settings().claim_ttl.nanos >= 1_000_000,
        service.job_step(
            run,
            JobEvent::Claim(ClaimReply::Claim(Ok(acquired_at))),
            shares,
            files,
            next,
            action,
            after,
        ),
    ensures
        after == files,
        action is End,
        action->outcome is Ok,
        action->outcome->Ok_0.deleted_files@.len() == 0,
        action->outcome->Ok_0.compacted_files@.len() == 0,
        !action->release_claim,
{
    let ttl = service.settings().claim_ttl;
    assert(ttl.millis() >= 1) by (nonlinear_arith)
        requires
            ttl.nanos as int >= 1_000_000,
            ttl.millis() == ttl.nanos as int / 1_000_000,
    ;
}

/// The claim on a job depends on the table and the generations alone: every compactor asks for
/// the same one, whatever the table is called and whatever files it has seen.
pub proof fn claim_is_shared(a: Job, b: Job)
    requires
        a.database_id == b.database_id,
        a.table_id == b.table_id,
        a.source_generation == b.source_generation,
        a.target_generation == b.target_generation,
    ensures
        claim_path_text(a) == claim_path_text(b),
{
}

/// A compacted file lies under its host and below the directory of the databases, and is named
/// after its compaction, so that two compactions never write the same file.
pub proof fn compacted_file_is_named_after_its_compaction(
    host: Seq<char>,
    job: Job,
    generation: u8,
    date: Seq<char>,
    id: Seq<char>,
    other: Seq<char>,
)
    ensures
        starts_with(
            compacted_path_text(host, job, generation, date, id),
            host + seq!['/', 'd', 'b', 's', '/'],
        ),
        ends_with(
            compacted_path_text(host, job, generation, date, id),
            seq!['/'] + id + seq!['.', 'p', 'a', 'r', 'q', 'u', 'e', 't'],
        ),
        compacted_path_text(host, job, generation, date, id) == compacted_path_text(
            host,
            job,
            generation,
            date,
            other,
        ) ==> id == other,
{
    reveal_strlit("/dbs/");
    reveal_strlit("/");
    reveal_strlit(".parquet");
    let suffix = seq!['.', 'p', 'a', 'r', 'q', 'u', 'e', 't'];
    let top = host + seq!['/', 'd', 'b', 's', '/'];
    let end = seq!['/'] + id + suffix;
    let path = compacted_path_text(host, job, generation, date, id);
    let again = compacted_path_text(host, job, generation, date, other);
    assert(path.take(top.len() as int) =~= top);
    assert(path.skip(path.len() - end.len()) =~= end);
    if path == again {
        let n = path.len() - id.len() - 8;
        assert(path.len() - id.len() == again.len() - other.len());
        assert(id =~= path.subrange(n, n + id.len()));
        assert(other =~= again.subrange(n, n + other.len()));
    }
}

/// The search for jobs fails only for a table that is looked at and has a file whose generation
/// cannot be told, and where it does not fail every file of such a table has a generation.
pub proof fn search_fails_only_for_unreadable_files(
    config: CompactionConfig,
    tables: Seq<CatalogTable>,
    t: int,
    i: int,
)
    ensures
        is_first_failure(config, tables, t, i) ==> 0 <= t < tables.len() && 0 <= i
            < tables[t].files@.len() && file_generation(tables[t].files@[i]) is Err
            && !tables[t].table_deleted && !tables[t].database_deleted,
        0 <= t < tables.len() && has_known_generations(tables[t].files@) && 0 <= i
            < tables[t].files@.len() ==> file_generation(tables[t].files@[i]) is Ok,
{
}

/// Files are added one by one.
pub proof fn files_are_added_one_by_one(
    t: FileState,
    key: (DbId, TableId),
    files: Seq<ParquetFile>,
    f: ParquetFile,
)
    ensures
        after_adds(t, key, Seq::empty()) == t,
        after_adds(t, key, files.push(f)) == after_add(after_adds(t, key, files), key, f),
{
    assert(files.push(f).drop_last() =~= files);
}

/// A file that is written has the rows of the batches with times, the chunk time of its earliest
/// time, and a path that names its host, table, generation, chunk time and compaction.
pub proof fn output_is_described(
    service: CompactionService,
    job: Job,
    batches: Seq<BatchTimes>,
    id: Seq<char>,
    out: CompactedOutput,
)
    requires
        service.is_output_of(job, batches, id, Ok(Some(out))),
    ensures
        time_range(with_rows(batches)).rows <= u64::MAX ==> out.row_count == time_range(
            with_rows(batches),
        ).rows,
        out.row_count > 0,
        out.chunk_time == output_chunk_time(
            service.settings(),
            job.target_generation,
            out.min_time,
        ),
        service.settings().generation_durations@.contains_key(job.target_generation),
        out.path@ == stored_path(
            compacted_path_text(
                service.host_text(),
                job,
                job.target_generation,
                date_segments(out.chunk_time),
                id,
            ),
        ),
{
}

/// A batch without a time column, and one whose column does not hold timestamps, are told apart.
pub proof fn unusable_columns_are_told_apart(rows: u64, first: i64, last: i64)
    ensures
        column_failure(BatchTimes { num_rows: rows, time: TimeColumn::Missing }) == Some(
            CompactionError::NoTimeColumn,
        ),
        column_failure(BatchTimes { num_rows: rows, time: TimeColumn::OtherType }) == Some(
            CompactionError::TimeColumnType,
        ),
        column_failure(BatchTimes { num_rows: rows, time: TimeColumn::Empty }) is None,
        column_failure(
            BatchTimes { num_rows: rows, time: TimeColumn::Nanoseconds { first, last } },
        ) is None,
{
}

/// What is handed on as a job goes on: the calls about its claim as the claim asks for them, the
/// manifest that adds the uploaded file and removes the inputs, and the same manifest again, under
/// the same id, when it is shared. A claim that cannot be settled ends the job.
pub proof fn job_hands_on_what_it_has(
    service: CompactionService,
    run: JobRun,
    event: JobEvent,
    shares: bool,
    files: FileState,
    next: JobRun,
    action: JobAction,
    after: FileState,
)
    requires
        service.job_step(run, event, shares, files, next, action, after),
    ensures
        match (run.stage, event) {
            (JobStage::Claiming(stage), JobEvent::Claim(reply)) => match claim_step(
                stage,
                run.started_at_unix_ms,
                service.settings().claim_ttl,
                reply,
            ) {
                ClaimStep::Call(s, call) => next.stage == JobStage::Claiming(s) && action
                    == JobAction::Claim(call),
                ClaimStep::Held => next.stage is Merging,
                ClaimStep::Refused => action is End && action->outcome is Ok,
                ClaimStep::Failed(e) => action is End && action->outcome
                    == Err::<CompactionResult, JobFailure>(JobFailure::Claim(e)),
            },
            (
                JobStage::Uploading { output, compaction_id },
                JobEvent::Uploaded { outcome: Ok((id, size)), catalog_sequence_number },
            ) => match action {
                JobAction::Persist { compaction_id: handed, manifest } => handed@ == compaction_id@
                    && manifest@ == service.job_manifest(
                    catalog_sequence_number,
                    run.job@,
                    seq![output.as_file(id, size)],
                    run.job@.files,
                ),
                _ => false,
            },
            (
                JobStage::Persisting { compaction_id, manifest, .. },
                JobEvent::Persisted(Ok(_)),
            ) => shares ==> match action {
                JobAction::Publish { compaction_id: handed, manifest: shared } => handed@
                    == compaction_id@ && shared@ == manifest@,
                _ => false,
            },
            _ => true,
        },
{
}

/// The directories above a compacted file are those of its host, of its database and table by name
/// and number, of its generation, and of its date.
pub proof fn compacted_file_has_its_directories(
    host: Seq<char>,
    job: Job,
    generation: u8,
    date: Seq<char>,
    id: Seq<char>,
)
    requires
        !host.contains('/'),
        !job.database_name.contains('/'),
        !job.table_name.contains('/'),
        !id.contains('/'),
    ensures
        segments(compacted_path_text(host, job, generation, date, id)) == seq![
            host,
            seq!['d', 'b', 's'],
            job.database_name + seq!['-'] + decimal_text(job.database_id as nat),
            job.table_name + seq!['-'] + decimal_text(job.table_id as nat),
            seq!['g', 'e', 'n'] + decimal_text(generation as nat),
        ] + segments(date) + seq![id + seq!['.', 'p', 'a', 'r', 'q', 'u', 'e', 't']],
{
    let db = job.database_name + seq!['-'] + decimal_text(job.database_id as nat);
    let table = job.table_name + seq!['-'] + decimal_text(job.table_id as nat);
    let gen = seq!['g', 'e', 'n'] + decimal_text(generation as nat);
    let file = id + seq!['.', 'p', 'a', 'r', 'q', 'u', 'e', 't'];
    named_without_slash(job.database_name, seq!['-'], job.database_id as nat);
    named_without_slash(job.table_name, seq!['-'], job.table_id as nat);
    named_without_slash(Seq::empty(), seq!['g', 'e', 'n'], generation as nat);
    assert(Seq::<char>::empty() + seq!['g', 'e', 'n'] + decimal_text(generation as nat) =~= gen);
    assert(!file.contains('/')) by {
        if file.contains('/') {
            let i = choose|i: int| 0 <= i < file.len() && file[i] == '/';
            if i < id.len() {
                assert(id[i] == '/');
            }
        }
    }
    table_dir_is_joined(host, job);
    compacted_path_is_joined(host, job, generation, date, id);
    directories_split(host, db, table, gen);
    let d = table_dir_text(host, job) + seq!['/'] + gen;
    split_on_concat(d, date, '/');
    split_on_join(d + seq!['/'] + date, file, '/');
    assert(segments(compacted_path_text(host, job, generation, date, id)) =~= segments(d)
        + segments(date) + seq![file]);
}

proof fn table_dir_is_joined(host: Seq<char>, job: Job)
    ensures
        table_dir_text(host, job) == host + seq!['/'] + seq!['d', 'b', 's'] + seq!['/'] + (
        job.database_name + seq!['-'] + decimal_text(job.database_id as nat)) + seq!['/'] + (
        job.table_name + seq!['-'] + decimal_text(job.table_id as nat)),
{
    reveal_strlit("/dbs/");
    reveal_strlit("/");
    reveal_strlit("-");
    let d1 = decimal_text(job.database_id as nat);
    let d2 = decimal_text(job.table_id as nat);
    assert("/dbs/"@ =~= seq!['/'] + seq!['d', 'b', 's'] + seq!['/']);
    assert("/"@ =~= seq!['/']);
    assert("-"@ =~= seq!['-']);
    assert(table_dir_text(host, job) =~= host + seq!['/'] + seq!['d', 'b', 's'] + seq!['/'] + (
    job.database_name + seq!['-'] + d1) + seq!['/'] + (job.table_name + seq!['-'] + d2));
}

proof fn compacted_path_is_joined(
    host: Seq<char>,
    job: Job,
    generation: u8,
    date: Seq<char>,
    id: Seq<char>,
)
    ensures
        compacted_path_text(host, job, generation, date, id) == table_dir_text(host, job) + seq!['/']
            + (seq!['g', 'e', 'n'] + decimal_text(generation as nat)) + seq!['/'] + date + seq!['/']
            + (id + seq!['.', 'p', 'a', 'r', 'q', 'u', 'e', 't']),
{
    reveal_strlit("/gen");
    reveal_strlit("/");
    reveal_strlit(".parquet");
    let dir = table_dir_text(host, job);
    let n = decimal_text(generation as nat);
    assert("/gen"@ =~= seq!['/'] + seq!['g', 'e', 'n']);
    assert("/"@ =~= seq!['/']);
    assert(".parquet"@ =~= seq!['.', 'p', 'a', 'r', 'q', 'u', 'e', 't']);
    assert(compacted_path_text(host, job, generation, date, id) =~= dir + seq!['/'] + (seq![
        'g',
        'e',
        'n',
    ] + n) + seq!['/'] + date + seq!['/'] + (id + seq!['.', 'p', 'a', 'r', 'q', 'u', 'e', 't']));
}

proof fn directories_split(host: Seq<char>, db: Seq<char>, table: Seq<char>, gen: Seq<char>)
    requires
        !host.contains('/'),
        !db.contains('/'),
        !table.contains('/'),
        !gen.contains('/'),
    ensures
        segments(
            host + seq!['/'] + seq!['d', 'b', 's'] + seq!['/'] + db + seq!['/'] + table + seq!['/']
                + gen,
        ) == seq![host, seq!['d', 'b', 's'], db, table, gen],
{
    let dbs = seq!['d', 'b', 's'];
    let a = host + seq!['/'] + dbs;
    let b = a + seq!['/'] + db;
    let c = b + seq!['/'] + table;
    assert(!dbs.contains('/'));
    split_on_absent(host, '/');
    split_on_join(host, dbs, '/');
    split_on_join(a, db, '/');
    split_on_join(b, table, '/');
    split_on_join(c, gen, '/');
    assert(segments(c + seq!['/'] + gen) =~= seq![host, dbs, db, table, gen]);
}

proof fn named_without_slash(name: Seq<char>, mark: Seq<char>, n: nat)
    requires
        !name.contains('/'),
        !mark.contains('/'),
    ensures
        !(name + mark + decimal_text(n)).contains('/'),
{
    let all = name + mark + decimal_text(n);
    decimal_text_denotes(n);
    if all.contains('/') {
        let i = choose|i: int| 0 <= i < all.len() && all[i] == '/';
        if i < name.len() {
            assert(name[i] == '/');
        } else if i < name.len() + mark.len() {
            assert(mark[i - name.len()] == '/');
        } else {
            assert(is_digit(decimal_text(n)[i - name.len() - mark.len()]));
        }
    }
}

} // verus!

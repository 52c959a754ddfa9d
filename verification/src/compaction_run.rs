//! The run of a compaction job: publish, then delete.
//!
//! A job is claimed; its files are merged; the result is uploaded; a manifest that adds it
//! and removes the inputs is made durable, and shared; the tracked files follow; only then
//! are the inputs deleted. A job that ends earlier has changed nothing that anyone refers
//! to. The library decides what comes next; the caller does it and reports back.

use vstd::prelude::*;

use crate::compaction::{
    after_adds, claim_step, is_result_of, BatchTimes, ClaimCall, ClaimReply, ClaimStage, ClaimStep,
    CompactedOutput, CompactionError, CompactionJob, CompactionResult, CompactionService, Job,
};
use crate::compaction_paths::claim_path_text;
use crate::files::{path_set, ParquetFile, PersistedSnapshot};
use crate::leases::LeaseError;
use crate::persisted_files::{after_remove, FileState, PersistedFiles};
use crate::shared_inventory::{is_id_text, new_compaction_id};

verus! {

/// How far a job has come: what it waits for.
#[derive(Debug)]
pub enum JobStage {
    /// A reply about the claim.
    Claiming(ClaimStage),
    /// The rows of the inputs, merged.
    Merging,
    /// The upload of the compacted file.
    Uploading { output: CompactedOutput, compaction_id: String },
    /// The manifest to be durable.
    Persisting { file: ParquetFile, compaction_id: String, manifest: PersistedSnapshot },
    /// The manifest to be shared with the other nodes.
    Publishing { file: ParquetFile },
    /// Nothing.
    Ended,
}

/// A job under way.
#[derive(Debug)]
pub struct JobRun {
    pub job: CompactionJob,
    /// When the job was started. Its claim is made as of then.
    pub started_at_unix_ms: i64,
    pub stage: JobStage,
}

/// What has happened to a job.
#[derive(Debug)]
pub enum JobEvent {
    /// The store replied to a call about the claim.
    Claim(ClaimReply),
    /// The inputs are merged: sorted, and without duplicates. The rows are described.
    Merged(Result<Vec<BatchTimes>, String>),
    /// The compacted file is uploaded, under this file id and with this size, as of this
    /// version of the catalog.
    Uploaded { outcome: Result<(u64, u64), String>, catalog_sequence_number: u64 },
    /// The manifest is durable.
    Persisted(Result<(), String>),
    /// Sharing the manifest was attempted. A failure delays the other nodes, and nothing
    /// else.
    Published,
}

/// Why a job failed.
#[derive(Debug, PartialEq, Eq)]
pub enum JobFailure {
    /// The claim could not be settled.
    Claim(LeaseError),
    /// The merged rows cannot be written.
    Output(CompactionError),
    /// Merging, uploading, or persisting failed.
    Outside(String),
    /// What happened is not what the job waits for.
    UnexpectedEvent,
}

/// What to do next for a job.
#[derive(Debug)]
pub enum JobAction {
    /// Make this call about the claim.
    Claim(ClaimCall),
    /// Merge the inputs.
    Merge,
    /// Upload the merged rows to this path.
    Upload { path: String },
    /// Make the manifest durable.
    Persist { compaction_id: String, manifest: PersistedSnapshot },
    /// Share the manifest with the other nodes.
    Publish { compaction_id: String, manifest: PersistedSnapshot },
    /// The job is over. The objects of the files that the result lists as deleted are to be
    /// deleted, after the grace period, and the claim is to be released, if it is held.
    End { outcome: Result<CompactionResult, JobFailure>, release_claim: bool },
}

/// The job holds its claim.
pub open spec fn holds_claim(stage: JobStage) -> bool {
    !(stage is Claiming) && !(stage is Ended)
}

/// The job ends with this failure, or with the result of having written `output`.
pub open spec fn ends_with_outcome(
    run: JobRun,
    next: JobRun,
    action: JobAction,
    outcome: Result<Option<ParquetFile>, JobFailure>,
) -> bool {
    &&& next.stage is Ended
    &&& match action {
        JobAction::End { outcome: o, release_claim } => {
            &&& release_claim == holds_claim(run.stage)
            &&& match (outcome, o) {
                (Ok(output), Ok(result)) => is_result_of(run.job@, output, result),
                (Err(e), Err(f)) => e == f,
                _ => false,
            }
        },
        _ => false,
    }
}

/// The tracked files once a job is published: the compacted file joins its table, and the
/// inputs leave it.
pub open spec fn after_job(files: FileState, job: Job, file: ParquetFile) -> FileState {
    let key = (job.database_id, job.table_id);
    after_remove(after_adds(files, key, seq![file]), key, path_set(job.files))
}

impl CompactionService {
    /// The batches are what ends a job in this way: there is nothing to write, or it cannot
    /// be written.
    pub open spec fn has_no_output(
        self,
        job: Job,
        batches: Seq<BatchTimes>,
        outcome: Result<Option<ParquetFile>, JobFailure>,
    ) -> bool {
        exists|id: Seq<char>| #[trigger]
            is_id_text(id) && match outcome {
                Ok(None) => self.is_output_of(job, batches, id, Ok(None)),
                Err(JobFailure::Output(e)) => self.is_output_of(job, batches, id, Err(e)),
                _ => false,
            }
    }

    /// A step of a job: what it waits for next, what is to be done, and what becomes of the
    /// tracked files. `shares` says whether there is an inventory to publish to.
    pub open spec fn job_step(
        self,
        run: JobRun,
        event: JobEvent,
        shares: bool,
        files: FileState,
        next: JobRun,
        action: JobAction,
        after: FileState,
    ) -> bool {
        let job = run.job@;
        &&& next.job == run.job
        &&& next.started_at_unix_ms == run.started_at_unix_ms
        &&& match (run.stage, event) {
            (JobStage::Claiming(stage), JobEvent::Claim(reply)) => {
                &&& after == files
                &&& match claim_step(
                    stage,
                    run.started_at_unix_ms,
                    self.settings().claim_ttl,
                    reply,
                ) {
                    ClaimStep::Call(s, call) => next.stage == JobStage::Claiming(s) && action
                        == JobAction::Claim(call),
                    ClaimStep::Held => next.stage == JobStage::Merging && action
                        == JobAction::Merge,
                    ClaimStep::Refused => ends_with_outcome(run, next, action, Ok(None)),
                    ClaimStep::Failed(e) => ends_with_outcome(
                        run,
                        next,
                        action,
                        Err(JobFailure::Claim(e)),
                    ),
                }
            },
            (JobStage::Merging, JobEvent::Merged(Ok(batches))) => {
                &&& after == files
                &&& match (next.stage, action) {
                    (JobStage::Uploading { output, compaction_id }, JobAction::Upload { path }) => {
                        &&& is_id_text(compaction_id@)
                        &&& self.is_output_of(job, batches@, compaction_id@, Ok(Some(output)))
                        &&& path@ == output.path@
                    },
                    _ => exists|o: Result<Option<ParquetFile>, JobFailure>| #[trigger]
                        self.has_no_output(job, batches@, o) && ends_with_outcome(
                            run,
                            next,
                            action,
                            o,
                        ),
                }
            },
            (
                JobStage::Uploading { output, compaction_id },
                JobEvent::Uploaded { outcome: Ok((id, size)), catalog_sequence_number },
            ) => {
                &&& after == files
                &&& match (next.stage, action) {
                    (
                        JobStage::Persisting { file, compaction_id: kept, manifest },
                        JobAction::Persist { compaction_id: handed, manifest: durable },
                    ) => {
                        &&& file == output.as_file(id, size)
                        &&& kept@ == compaction_id@
                        &&& handed@ == compaction_id@
                        &&& manifest@ == self.job_manifest(
                            catalog_sequence_number,
                            job,
                            seq![file],
                            job.files,
                        )
                        &&& durable@ == manifest@
                    },
                    _ => false,
                }
            },
            (
                JobStage::Persisting { file, compaction_id, manifest },
                JobEvent::Persisted(Ok(_)),
            ) => if shares {
                &&& after == files
                &&& next.stage == (JobStage::Publishing { file })
                &&& match action {
                    JobAction::Publish { compaction_id: handed, manifest: shared } => handed@
                        == compaction_id@ && shared@ == manifest@,
                    _ => false,
                }
            } else {
                &&& after == after_job(files, job, file)
                &&& ends_with_outcome(run, next, action, Ok(Some(file)))
            },
            (JobStage::Publishing { file }, JobEvent::Published) => {
                &&& after == after_job(files, job, file)
                &&& ends_with_outcome(run, next, action, Ok(Some(file)))
            },
            (JobStage::Merging, JobEvent::Merged(Err(e))) => after == files && ends_with_outcome(
                run,
                next,
                action,
                Err(JobFailure::Outside(e)),
            ),
            (
                JobStage::Uploading { .. },
                JobEvent::Uploaded { outcome: Err(e), .. },
            ) => after == files && ends_with_outcome(
                run,
                next,
                action,
                Err(JobFailure::Outside(e)),
            ),
            (JobStage::Persisting { .. }, JobEvent::Persisted(Err(e))) => after == files
                && ends_with_outcome(run, next, action, Err(JobFailure::Outside(e))),
            _ => after == files && ends_with_outcome(
                run,
                next,
                action,
                Err(JobFailure::UnexpectedEvent),
            ),
        }
    }

    /// Starts a job: a table without a sort key cannot be compacted; otherwise the job has
    /// to be claimed first, at this path and with this call.
    pub fn execute_compaction_job(&self, job: CompactionJob, now_unix_ms: i64) -> (r: Result<
        (JobRun, String, ClaimCall),
        CompactionError,
    >)
        ensures
            match r {
                Ok((run, path, call)) => {
                    &&& job@.sort_key.len() > 0
                    &&& run == (JobRun {
                        job,
                        started_at_unix_ms: now_unix_ms,
                        stage: JobStage::Claiming(ClaimStage::Create),
                    })
                    &&& path@ == claim_path_text(job@)
                    &&& call == (ClaimCall::Create { acquired_at_unix_ms: now_unix_ms })
                },
                Err(e) => job@.sort_key.len() == 0 && e == (CompactionError::EmptySortKey {
                    table: job.table_name,
                }),
            },
    {
        if job.sort_key.len() == 0 {
            return Err(CompactionError::EmptySortKey { table: job.table_name });
        }
        let path = self.claim_path(&job);
        let run = JobRun {
            job,
            started_at_unix_ms: now_unix_ms,
            stage: JobStage::Claiming(ClaimStage::Create),
        };
        Ok((run, path, ClaimCall::Create { acquired_at_unix_ms: now_unix_ms }))
    }

    /// Goes on with a job once something has happened to it. Where the job is published, the
    /// tracked files follow.
    pub fn resume_job(
        &self,
        run: JobRun,
        event: JobEvent,
        shares: bool,
        files: &mut PersistedFiles,
    ) -> (r: (JobRun, JobAction))
        ensures
            self.job_step(run, event, shares, old(files)@, r.0, r.1, final(files)@),
    {
        let job = run.job;
        let at: i64 = run.started_at_unix_ms;
        match (run.stage, event) {
            (JobStage::Claiming(stage), JobEvent::Claim(reply)) => {
                match self.acquire_claim(stage, at, reply) {
                    ClaimStep::Call(s, call) => (
                        JobRun { job, started_at_unix_ms: at, stage: JobStage::Claiming(s) },
                        JobAction::Claim(call),
                    ),
                    ClaimStep::Held => (
                        JobRun { job, started_at_unix_ms: at, stage: JobStage::Merging },
                        JobAction::Merge,
                    ),
                    ClaimStep::Refused => self.end_job(job, at, Ok(None), false),
                    ClaimStep::Failed(e) => self.end_job(
                        job,
                        at,
                        Err(JobFailure::Claim(e)),
                        false,
                    ),
                }
            },
            (JobStage::Merging, JobEvent::Merged(Ok(batches))) => {
                let compaction_id = new_compaction_id();
                match self.write_compacted_file(&job, &batches, compaction_id.as_str()) {
                    Ok(Some(output)) => {
                        let path = output.path.clone();
                        let stage = JobStage::Uploading { output, compaction_id };
                        (
                            JobRun { job, started_at_unix_ms: at, stage },
                            JobAction::Upload { path },
                        )
                    },
                    Ok(None) => {
                        proof {
                            let o = Ok::<Option<ParquetFile>, JobFailure>(None);
                            assert(is_id_text(compaction_id@));
                            assert(self.has_no_output(job@, batches@, o));
                        }
                        self.end_job(job, at, Ok(None), true)
                    },
                    Err(e) => {
                        proof {
                            let o = Err::<Option<ParquetFile>, JobFailure>(JobFailure::Output(e));
                            assert(is_id_text(compaction_id@));
                            assert(self.has_no_output(job@, batches@, o));
                        }
                        self.end_job(job, at, Err(JobFailure::Output(e)), true)
                    },
                }
            },
            (
                JobStage::Uploading { output, compaction_id },
                JobEvent::Uploaded { outcome: Ok((id, size)), catalog_sequence_number },
            ) => {
                let file = output.into_file(id, size);
                let mut new_files: Vec<ParquetFile> = Vec::new();
                new_files.push(file.duplicate());
                let manifest = self.publish_compaction(
                    catalog_sequence_number,
                    &job,
                    &new_files,
                    &job.files,
                );
                proof {
                    assert(new_files@ =~= seq![file]);
                }
                let action = JobAction::Persist {
                    compaction_id: compaction_id.clone(),
                    manifest: manifest.duplicate(),
                };
                let stage = JobStage::Persisting { file, compaction_id, manifest };
                (JobRun { job, started_at_unix_ms: at, stage }, action)
            },
            (
                JobStage::Persisting { file, compaction_id, manifest },
                JobEvent::Persisted(Ok(_)),
            ) => {
                if shares {
                    let action = JobAction::Publish { compaction_id, manifest };
                    let stage = JobStage::Publishing { file };
                    (JobRun { job, started_at_unix_ms: at, stage }, action)
                } else {
                    self.apply_job(&job, &file, files);
                    self.end_job(job, at, Ok(Some(file)), true)
                }
            },
            (JobStage::Publishing { file }, JobEvent::Published) => {
                self.apply_job(&job, &file, files);
                self.end_job(job, at, Ok(Some(file)), true)
            },
            (JobStage::Merging, JobEvent::Merged(Err(e))) => self.end_job(
                job,
                at,
                Err(JobFailure::Outside(e)),
                true,
            ),
            (
                JobStage::Uploading { .. },
                JobEvent::Uploaded { outcome: Err(e), .. },
            ) => self.end_job(job, at, Err(JobFailure::Outside(e)), true),
            (JobStage::Persisting { .. }, JobEvent::Persisted(Err(e))) => self.end_job(
                job,
                at,
                Err(JobFailure::Outside(e)),
                true,
            ),
            (JobStage::Claiming(_), _) | (JobStage::Ended, _) => self.end_job(
                job,
                at,
                Err(JobFailure::UnexpectedEvent),
                false,
            ),
            _ => self.end_job(job, at, Err(JobFailure::UnexpectedEvent), true),
        }
    }

    fn end_job(
        &self,
        job: CompactionJob,
        at: i64,
        outcome: Result<Option<ParquetFile>, JobFailure>,
        release_claim: bool,
    ) -> (r: (JobRun, JobAction))
        ensures
            r.0 == (JobRun { job, started_at_unix_ms: at, stage: JobStage::Ended }),
            match r.1 {
                JobAction::End { outcome: o, release_claim: release } => {
                    &&& release == release_claim
                    &&& match (outcome, o) {
                        (Ok(output), Ok(result)) => is_result_of(job@, output, result),
                        (Err(e), Err(f)) => e == f,
                        _ => false,
                    }
                },
                _ => false,
            },
    {
        let outcome = match outcome {
            Ok(output) => Ok(self.finish_compaction_job(&job, output)),
            Err(e) => Err(e),
        };
        (
            JobRun { job, started_at_unix_ms: at, stage: JobStage::Ended },
            JobAction::End { outcome, release_claim },
        )
    }

    fn apply_job(&self, job: &CompactionJob, file: &ParquetFile, files: &mut PersistedFiles)
        ensures
            final(files)@ == after_job(old(files)@, job@, *file),
    {
        let mut new_files: Vec<ParquetFile> = Vec::new();
        new_files.push(file.duplicate());
        proof {
            assert(new_files@ =~= seq![*file]);
        }
        self.apply_compaction(files, job, &new_files, &job.files);
    }
}

/// One step of a job, with the tracked files before and after it.
pub struct JobTurn {
    pub run: JobRun,
    pub event: JobEvent,
    pub shares: bool,
    pub files: FileState,
    pub next: JobRun,
    pub action: JobAction,
    pub after: FileState,
}

impl JobTurn {
    /// The manifest became durable in this step.
    pub open spec fn persists(self) -> bool {
        self.run.stage is Persisting && self.event is Persisted && self.event->Persisted_0 is Ok
    }

    /// The step ends the job, and inputs are to be deleted.
    pub open spec fn deletes(self) -> bool {
        match self.action {
            JobAction::End { outcome: Ok(result), .. } => result.deleted_files.len() > 0,
            _ => false,
        }
    }

    /// The step ends the job, and the claim is to be released.
    pub open spec fn releases(self) -> bool {
        match self.action {
            JobAction::End { release_claim, .. } => release_claim,
            _ => false,
        }
    }
}

/// The steps of a job, from its start.
pub open spec fn is_history(service: CompactionService, turns: Seq<JobTurn>) -> bool {
    &&& turns.len() > 0 ==> turns[0].run.stage == JobStage::Claiming(ClaimStage::Create)
    &&& forall|i: int|
        0 <= i < turns.len() ==> {
            let t = #[trigger] turns[i];
            service.job_step(t.run, t.event, t.shares, t.files, t.next, t.action, t.after)
        }
    &&& forall|i: int| 0 < i < turns.len() ==> (#[trigger] turns[i]).run == turns[i - 1].next
}

/// The manifest has become durable in one of the first `n` steps.
pub open spec fn is_durable(turns: Seq<JobTurn>, n: int) -> bool {
    exists|j: int| 0 <= j < n && (#[trigger] turns[j]).persists()
}

proof fn publishing_is_durable(service: CompactionService, turns: Seq<JobTurn>, i: int)
    requires
        is_history(service, turns),
        0 <= i < turns.len(),
        turns[i].run.stage is Publishing,
    ensures
        is_durable(turns, i),
{
    if i > 0 {
        let t = turns[i - 1];
        assert(turns[i].run == t.next);
        assert(t.persists());
    }
}

/// The manifest is durable before the tracked files change, and before an input is deleted.
/// A job that stops before that leaves every input in place and referred to.
pub proof fn publish_comes_before_delete(
    service: CompactionService,
    turns: Seq<JobTurn>,
    i: int,
)
    requires
        is_history(service, turns),
        0 <= i < turns.len(),
    ensures
        turns[i].deletes() ==> is_durable(turns, i + 1),
        turns[i].after != turns[i].files ==> is_durable(turns, i + 1),
{
    let t = turns[i];
    if t.run.stage is Publishing {
        publishing_is_durable(service, turns, i);
        let j = choose|j: int| 0 <= j < i && (#[trigger] turns[j]).persists();
        assert(turns[j].persists());
    } else if t.persists() {
        assert(turns[i].persists());
    }
}

proof fn ended_stays_ended(service: CompactionService, turns: Seq<JobTurn>, i: int, j: int)
    requires
        is_history(service, turns),
        0 <= i < j < turns.len(),
        turns[i].next.stage is Ended,
    ensures
        turns[j].run.stage is Ended,
    decreases j,
{
    assert(turns[j].run == turns[j - 1].next);
    if i < j - 1 {
        ended_stays_ended(service, turns, i, j - 1);
    }
}

/// A claim is released at most once.
pub proof fn claim_is_released_once(
    service: CompactionService,
    turns: Seq<JobTurn>,
    i: int,
    j: int,
)
    requires
        is_history(service, turns),
        0 <= i < j < turns.len(),
        turns[i].releases(),
    ensures
        !turns[j].releases(),
{
    ended_stays_ended(service, turns, i, j);
}

proof fn held_until_released(service: CompactionService, turns: Seq<JobTurn>, i: int, j: int)
    requires
        is_history(service, turns),
        0 <= i <= j < turns.len(),
        holds_claim(turns[i].next.stage),
    ensures
        holds_claim(turns[j].next.stage) || exists|k: int|
            i < k <= j && (#[trigger] turns[k]).releases(),
    decreases j,
{
    if i < j {
        held_until_released(service, turns, i, j - 1);
        assert(turns[j].run == turns[j - 1].next);
        if holds_claim(turns[j - 1].next.stage) {
            if !holds_claim(turns[j].next.stage) {
                assert(turns[j].releases());
            }
        }
    }
}

/// A claim that was got is released by the time the job has ended, however it ends.
pub proof fn claim_is_released(
    service: CompactionService,
    turns: Seq<JobTurn>,
    i: int,
    j: int,
)
    requires
        is_history(service, turns),
        0 <= i <= j < turns.len(),
        holds_claim(turns[i].next.stage),
        turns[j].next.stage is Ended,
    ensures
        exists|k: int| i < k <= j && (#[trigger] turns[k]).releases(),
{
    held_until_released(service, turns, i, j);
}

} // verus!

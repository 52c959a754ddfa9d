//! Compaction: which files of a table to merge into the next generation, under
//! which claim, into which file, and how the result is published.

use std::collections::HashMap;

use vstd::prelude::*;
use vstd::string::*;

use crate::chunk::{find_generation, generation_text};
use crate::duration::Duration;
use crate::files::{
    copy_files, path_set, with_files, DbId, Manifest, ParquetFile, PersistedSnapshot, TableEntry,
    TableFiles, TableId,
};
use crate::fold::{clamped, total_bytes, totals_of};
use crate::leases::{Lease, LeaseError, StoreFailure};
use crate::compaction_paths::{
    claim_path_is_plain, claim_path_text, compacted_path_is_plain, compacted_path_text,
    date_segments, format_chunk_time, plain_names,
};
use crate::object_path::{object_path, stored_path};
use crate::persisted_files::{after_add, after_remove, less, FileState, PersistedFiles};
use crate::text::{parse_unsigned, push_decimal, read_unsigned, texts};

verus! {

broadcast use vstd::std_specs::hash::group_hash_axioms;

/// Configuration of the compaction service.
#[derive(Debug)]
pub struct CompactionConfig {
    /// Whether compaction is enabled.
    pub enabled: bool,
    /// Time between compaction cycles.
    pub interval: Duration,
    /// How many files a cycle compacts at most.
    pub max_files_per_run: usize,
    /// How many files of a generation it takes to compact them.
    pub min_files_for_compaction: usize,
    /// The time that the files of a generation span, by generation.
    pub generation_durations: HashMap<u8, Duration>,
    /// How long to keep the inputs of a compaction once it is published, so that
    /// queries that are already running can finish.
    pub delete_grace: Duration,
    /// Write a checkpoint every so many cycles; zero disables checkpoints.
    pub checkpoint_every_n_cycles: u32,
    /// How long a claim on a table is honoured. An older one is taken for that of a
    /// crashed compactor.
    pub claim_ttl: Duration,
}

impl Default for CompactionConfig {
    fn default() -> (r: CompactionConfig)
        ensures
            r.enabled,
            r.interval.nanos == 3600 * 1_000_000_000,
            r.max_files_per_run == 100,
            r.min_files_for_compaction == 10,
            r.generation_durations@ == Map::<u8, Duration>::empty(),
            r.delete_grace.nanos == 600 * 1_000_000_000,
            r.checkpoint_every_n_cycles == 10,
            r.claim_ttl.nanos == 1800 * 1_000_000_000,
    {
        CompactionConfig {
            enabled: true,
            interval: Duration::from_secs(3600),
            max_files_per_run: 100,
            min_files_for_compaction: 10,
            generation_durations: HashMap::new(),
            delete_grace: Duration::from_secs(600),
            checkpoint_every_n_cycles: 10,
            claim_ttl: Duration::from_secs(1800),
        }
    }
}

/// The compaction service of a node.
#[derive(Debug)]
pub struct CompactionService {
    config: CompactionConfig,
    host: String,
    cycles: u64,
}

impl CompactionService {
    /// The configuration of the service.
    pub closed spec fn settings(self) -> CompactionConfig {
        self.config
    }

    /// The node that the service runs on.
    pub closed spec fn host_text(self) -> Seq<char> {
        self.host@
    }

    /// How many cycles have been counted.
    pub closed spec fn cycle_count(self) -> u64 {
        self.cycles
    }

    /// A service on this node that has run no cycles.
    pub fn new(config: CompactionConfig, host: String) -> (r: CompactionService)
        ensures
            r.settings() == config,
            r.host_text() == host@,
            r.cycle_count() == 0,
    {
        CompactionService { config, host, cycles: 0 }
    }

    /// The configuration of the service.
    pub fn config(&self) -> (r: &CompactionConfig)
        ensures
            *r == self.settings(),
    {
        &self.config
    }
}

/// Why a compaction does not take place.
#[derive(Debug, PartialEq, Eq)]
pub enum CompactionError {
    /// The path names a generation that there is not.
    InvalidGeneration { generation: u8, path: String },
    /// The path names a generation whose number is out of range.
    UnreadableGeneration { path: String },
    /// The table has no sort key.
    EmptySortKey { table: String },
    /// No duration is configured for the target generation.
    NoDuration { generation: u8 },
    /// A compacted batch has no time column.
    NoTimeColumn,
    /// The time column does not hold nanosecond timestamps.
    TimeColumnType,
    /// The compacted batches hold no rows.
    NoRows,
}

/// The highest generation.
pub const LAST_GENERATION: u8 = 5;

/// The generation of a file: that which its path names, the first where it names none. A
/// number that is no generation is an error.
pub open spec fn file_generation(file: ParquetFile) -> Result<u8, CompactionError> {
    match generation_text(file.path@) {
        None => Ok(1),
        Some(t) => match parse_unsigned(t, 255) {
            Some(n) => if 1 <= n <= LAST_GENERATION {
                Ok(n as u8)
            } else {
                Err(CompactionError::InvalidGeneration { generation: n as u8, path: file.path })
            },
            None => Err(CompactionError::UnreadableGeneration { path: file.path }),
        },
    }
}

impl CompactionService {
    /// The generation of a file.
    pub fn get_file_generation(&self, file: &ParquetFile) -> (r: Result<u8, CompactionError>)
        ensures
            r == file_generation(*file),
    {
        match find_generation(file.path.as_str()) {
            None => Ok(1),
            Some(t) => match read_unsigned(t.as_str(), 255) {
                Some(n) => if 1 <= n && n <= LAST_GENERATION as u64 {
                    Ok(n as u8)
                } else {
                    Err(
                        CompactionError::InvalidGeneration {
                            generation: n as u8,
                            path: file.path.clone(),
                        },
                    )
                },
                None => Err(CompactionError::UnreadableGeneration { path: file.path.clone() }),
            },
        }
    }

    /// The generation that files are compacted into, if there is one.
    pub fn get_next_generation(&self, current_gen: u8) -> (r: Option<u8>)
        ensures
            r == if current_gen < LAST_GENERATION {
                Some((current_gen + 1) as u8)
            } else {
                None
            },
    {
        if current_gen < LAST_GENERATION {
            Some(current_gen + 1)
        } else {
            None
        }
    }
}

/// The earliest time in the files, zero where there are none.
pub open spec fn earliest(files: Seq<ParquetFile>) -> int
    decreases files.len(),
{
    if files.len() == 0 {
        0
    } else if files.len() == 1 {
        files[0].min_time as int
    } else {
        let before = earliest(files.drop_last());
        if files.last().min_time < before {
            files.last().min_time as int
        } else {
            before
        }
    }
}

/// The latest time in the files, zero where there are none.
pub open spec fn latest(files: Seq<ParquetFile>) -> int
    decreases files.len(),
{
    if files.len() == 0 {
        0
    } else if files.len() == 1 {
        files[0].max_time as int
    } else {
        let before = latest(files.drop_last());
        if files.last().max_time > before {
            files.last().max_time as int
        } else {
            before
        }
    }
}

/// The time that the files span.
pub open spec fn span(files: Seq<ParquetFile>) -> int {
    if latest(files) > earliest(files) {
        latest(files) - earliest(files)
    } else {
        0
    }
}

impl CompactionService {
    /// Whether there are enough files, and they span the duration of the target
    /// generation.
    pub fn can_compact_to_generation(
        &self,
        files: &Vec<ParquetFile>,
        target_duration: Duration,
    ) -> (r: bool)
        ensures
            r == (files.len() >= self.settings().min_files_for_compaction && span(files@)
                >= target_duration.nanos),
    {
        if files.len() < self.config.min_files_for_compaction {
            return false;
        }
        let mut low: i64 = 0;
        let mut high: i64 = 0;
        let mut i: usize = 0;
        while i < files.len()
            invariant
                i <= files.len(),
                low == earliest(files@.take(i as int)),
                high == latest(files@.take(i as int)),
            decreases files.len() - i,
        {
            proof {
                assert(files@.take(i + 1).drop_last() =~= files@.take(i as int));
            }
            if i == 0 || files[i].min_time < low {
                low = files[i].min_time;
            }
            if i == 0 || files[i].max_time > high {
                high = files[i].max_time;
            }
            i += 1;
        }
        proof {
            assert(files@.take(i as int) =~= files@);
        }
        let width: u128 = if high > low {
            (high as i128 - low as i128) as u128
        } else {
            0
        };
        width >= target_duration.nanos
    }
}

/// A table as the catalog has it, with its live files.
#[derive(Debug)]
pub struct CatalogTable {
    pub database_id: DbId,
    pub database_name: String,
    pub database_deleted: bool,
    pub table_id: TableId,
    pub table_name: String,
    pub table_deleted: bool,
    pub sort_key: Vec<String>,
    pub files: Vec<ParquetFile>,
}

/// A compaction to execute.
#[derive(Debug)]
pub struct CompactionJob {
    pub database_id: DbId,
    pub database_name: String,
    pub table_id: TableId,
    pub table_name: String,
    pub source_generation: u8,
    pub target_generation: u8,
    pub files: Vec<ParquetFile>,
    pub sort_key: Vec<String>,
}

/// What a [`CompactionJob`] holds.
pub struct Job {
    pub database_id: DbId,
    pub database_name: Seq<char>,
    pub table_id: TableId,
    pub table_name: Seq<char>,
    pub source_generation: u8,
    pub target_generation: u8,
    pub files: Seq<ParquetFile>,
    pub sort_key: Seq<Seq<char>>,
}

impl View for CompactionJob {
    type V = Job;

    open spec fn view(&self) -> Job {
        Job {
            database_id: self.database_id,
            database_name: self.database_name@,
            table_id: self.table_id,
            table_name: self.table_name@,
            source_generation: self.source_generation,
            target_generation: self.target_generation,
            files: self.files@,
            sort_key: texts(self.sort_key@),
        }
    }
}

/// What a list of jobs holds.
pub open spec fn jobs(list: Seq<CompactionJob>) -> Seq<Job> {
    Seq::new(list.len(), |i: int| list[i]@)
}

/// The table is looked at: it is not deleted, and has enough files.
pub open spec fn is_candidate(config: CompactionConfig, table: CatalogTable) -> bool {
    !table.database_deleted && !table.table_deleted && table.files@.len()
        >= config.min_files_for_compaction
}

/// The files of one generation, in the order in which the table has them.
pub open spec fn of_generation(files: Seq<ParquetFile>, generation: u8) -> Seq<ParquetFile> {
    files.filter(|f: ParquetFile| file_generation(f) == Ok::<u8, CompactionError>(generation))
}

/// The files of this generation are to be compacted into the next.
pub open spec fn is_due(config: CompactionConfig, table: CatalogTable, generation: u8) -> bool {
    let group = of_generation(table.files@, generation);
    let durations = config.generation_durations@;
    let next = (generation + 1) as u8;
    &&& group.len() > 0
    &&& group.len() >= config.min_files_for_compaction
    &&& generation < LAST_GENERATION
    &&& durations.contains_key(next)
    &&& span(group) >= durations[next].nanos
}

/// The job that compacts the files of this generation.
pub open spec fn job_for(table: CatalogTable, generation: u8) -> Job {
    Job {
        database_id: table.database_id,
        database_name: table.database_name@,
        table_id: table.table_id,
        table_name: table.table_name@,
        source_generation: generation,
        target_generation: (generation + 1) as u8,
        files: of_generation(table.files@, generation),
        sort_key: texts(table.sort_key@),
    }
}

/// The jobs for the generations up to this one, in ascending order.
pub open spec fn jobs_up_to(config: CompactionConfig, table: CatalogTable, generation: u8) -> Seq<
    Job,
>
    decreases generation,
{
    if generation == 0 {
        Seq::empty()
    } else {
        let before = jobs_up_to(config, table, (generation - 1) as u8);
        if is_due(config, table, generation) {
            before.push(job_for(table, generation))
        } else {
            before
        }
    }
}

/// The jobs for the tables, in order.
pub open spec fn all_jobs(config: CompactionConfig, tables: Seq<CatalogTable>) -> Seq<Job>
    decreases tables.len(),
{
    if tables.len() == 0 {
        Seq::empty()
    } else {
        let before = all_jobs(config, tables.drop_last());
        if is_candidate(config, tables.last()) {
            before + jobs_up_to(config, tables.last(), LAST_GENERATION)
        } else {
            before
        }
    }
}

/// The generation of every file of the table can be told.
pub open spec fn has_known_generations(files: Seq<ParquetFile>) -> bool {
    forall|i: int| 0 <= i < files.len() ==> file_generation(#[trigger] files[i]) is Ok
}

/// `i` is the first file whose generation cannot be told.
pub open spec fn first_unknown(files: Seq<ParquetFile>, i: int) -> bool {
    0 <= i < files.len() && file_generation(files[i]) is Err && has_known_generations(
        files.take(i),
    )
}

/// Table `t` is the first candidate with a file whose generation cannot be told, and
/// file `i` is the first such file of it.
pub open spec fn is_first_failure(
    config: CompactionConfig,
    tables: Seq<CatalogTable>,
    t: int,
    i: int,
) -> bool {
    &&& 0 <= t < tables.len()
    &&& is_candidate(config, tables[t])
    &&& first_unknown(tables[t].files@, i)
    &&& forall|s: int|
        0 <= s < t && is_candidate(config, #[trigger] tables[s]) ==> has_known_generations(
            tables[s].files@,
        )
}

fn copy_strings(list: &Vec<String>) -> (r: Vec<String>)
    ensures
        r@ == list@,
{
    let mut out: Vec<String> = Vec::new();
    let mut i: usize = 0;
    while i < list.len()
        invariant
            i <= list.len(),
            out@ == list@.take(i as int),
        decreases list.len() - i,
    {
        out.push(list[i].clone());
        i += 1;
        proof {
            assert(out@ =~= list@.take(i as int));
        }
    }
    proof {
        assert(list@.take(i as int) =~= list@);
    }
    out
}

impl CompactionService {
    /// The generation of each file, or the failure of the first file whose generation
    /// cannot be told.
    fn generations_of(&self, files: &Vec<ParquetFile>) -> (r: Result<Vec<u8>, CompactionError>)
        ensures
            match r {
                Ok(g) => g.len() == files.len() && forall|i: int|
                    0 <= i < files.len() ==> file_generation(#[trigger] files@[i]) == Ok::<
                        u8,
                        CompactionError,
                    >(g@[i]),
                Err(e) => exists|i: int| #[trigger]
                    first_unknown(files@, i) && file_generation(files@[i]) == Err::<u8, CompactionError>(
                        e,
                    ),
            },
    {
        let mut out: Vec<u8> = Vec::new();
        let mut i: usize = 0;
        while i < files.len()
            invariant
                i <= files.len(),
                out.len() == i,
                forall|j: int|
                    0 <= j < i ==> file_generation(#[trigger] files@[j]) == Ok::<u8, CompactionError>(
                        out@[j],
                    ),
            decreases files.len() - i,
        {
            match self.get_file_generation(&files[i]) {
                Ok(g) => {
                    out.push(g);
                },
                Err(e) => {
                    proof {
                        let known = files@.take(i as int);
                        assert forall|j: int| 0 <= j < known.len() implies file_generation(
                            #[trigger] known[j],
                        ) is Ok by {
                            assert(known[j] == files@[j]);
                        }
                        assert(first_unknown(files@, i as int));
                    }
                    return Err(e);
                },
            }
            i += 1;
        }
        Ok(out)
    }
}

/// The files of one generation.
fn files_of_generation(files: &Vec<ParquetFile>, generations: &Vec<u8>, generation: u8) -> (r: Vec<
    ParquetFile,
>)
    requires
        generations.len() == files.len(),
        forall|i: int|
            0 <= i < files.len() ==> file_generation(#[trigger] files@[i]) == Ok::<
                u8,
                CompactionError,
            >(generations@[i]),
    ensures
        r@ == of_generation(files@, generation),
{
    let mut out: Vec<ParquetFile> = Vec::new();
    let mut i: usize = 0;
    proof {
        reveal(Seq::filter);
        assert(files@.take(0) =~= Seq::empty());
    }
    while i < files.len()
        invariant
            i <= files.len(),
            generations.len() == files.len(),
            forall|j: int|
                0 <= j < files.len() ==> file_generation(#[trigger] files@[j]) == Ok::<
                    u8,
                    CompactionError,
                >(generations@[j]),
            out@ == of_generation(files@.take(i as int), generation),
        decreases files.len() - i,
    {
        proof {
            reveal(Seq::filter);
            assert(files@.take(i + 1).drop_last() =~= files@.take(i as int));
            assert(files@.take(i + 1).last() == files@[i as int]);
            assert(file_generation(files@[i as int]) == Ok::<u8, CompactionError>(
                generations@[i as int],
            ));
        }
        if generations[i] == generation {
            out.push(files[i].duplicate());
        }
        i += 1;
    }
    proof {
        assert(files@.take(i as int) =~= files@);
    }
    out
}

impl CompactionService {
    /// Adds the jobs of one table.
    fn table_jobs(
        &self,
        table: &CatalogTable,
        generations: &Vec<u8>,
        out: &mut Vec<CompactionJob>,
    )
        requires
            generations.len() == table.files.len(),
            forall|i: int|
                0 <= i < table.files.len() ==> file_generation(#[trigger] table.files@[i]) == Ok::<
                    u8,
                    CompactionError,
                >(generations@[i]),
        ensures
            jobs(final(out)@) == jobs(old(out)@) + jobs_up_to(
                self.settings(),
                *table,
                LAST_GENERATION,
            ),
    {
        let ghost start = jobs(out@);
        let mut g: u8 = 0;
        proof {
            assert(start + Seq::<Job>::empty() =~= start);
        }
        while g < LAST_GENERATION
            invariant
                g <= LAST_GENERATION,
                generations.len() == table.files.len(),
                forall|i: int|
                    0 <= i < table.files.len() ==> file_generation(#[trigger] table.files@[i]) == Ok::<
                        u8,
                        CompactionError,
                    >(generations@[i]),
                jobs(out@) == start + jobs_up_to(self.settings(), *table, g),
            decreases LAST_GENERATION - g,
        {
            let ghost before = jobs_up_to(self.settings(), *table, g);
            let ghost listed = jobs(out@);
            g += 1;
            let files = files_of_generation(&table.files, generations, g);
            if files.len() > 0 && files.len() >= self.config.min_files_for_compaction {
                if let Some(next) = self.get_next_generation(g) {
                    if let Some(duration) = self.config.generation_durations.get(&next) {
                        if self.can_compact_to_generation(&files, *duration) {
                            out.push(
                                CompactionJob {
                                    database_id: table.database_id,
                                    database_name: table.database_name.clone(),
                                    table_id: table.table_id,
                                    table_name: table.table_name.clone(),
                                    source_generation: g,
                                    target_generation: next,
                                    files,
                                    sort_key: copy_strings(&table.sort_key),
                                },
                            );
                            proof {
                                assert(is_due(self.settings(), *table, g));
                                assert(out@.last()@ == job_for(*table, g));
                                assert(jobs(out@) =~= listed.push(job_for(*table, g)));
                                assert(jobs(out@) =~= start + before.push(job_for(*table, g)));
                            }
                        }
                    }
                }
            }
        }
    }

    /// The compactions to execute: for each table that is not deleted, and each generation
    /// of it that has enough files spanning the duration of the next. A path with a
    /// generation that cannot be told fails the whole search.
    pub fn identify_compaction_jobs(&self, tables: &Vec<CatalogTable>) -> (r:
        Result<Vec<CompactionJob>, CompactionError>)
        ensures
            match r {
                Ok(list) => jobs(list@) == all_jobs(self.settings(), tables@) && forall|t: int|
                    0 <= t < tables.len() && is_candidate(self.settings(), #[trigger] tables@[t])
                        ==> has_known_generations(tables@[t].files@),
                Err(e) => exists|t: int, i: int| #[trigger]
                    is_first_failure(self.settings(), tables@, t, i) && file_generation(
                        tables@[t].files@[i],
                    ) == Err::<u8, CompactionError>(e),
            },
    {
        let mut out: Vec<CompactionJob> = Vec::new();
        let mut t: usize = 0;
        proof {
            assert(tables@.take(0) =~= Seq::empty());
            assert(jobs(out@) =~= Seq::empty());
        }
        while t < tables.len()
            invariant
                t <= tables.len(),
                jobs(out@) == all_jobs(self.settings(), tables@.take(t as int)),
                forall|s: int|
                    0 <= s < t && is_candidate(self.settings(), #[trigger] tables@[s])
                        ==> has_known_generations(tables@[s].files@),
            decreases tables.len() - t,
        {
            let table = &tables[t];
            proof {
                assert(tables@.take(t + 1).drop_last() =~= tables@.take(t as int));
                assert(tables@.take(t + 1).last() == *table);
            }
            if !table.database_deleted && !table.table_deleted && table.files.len()
                >= self.config.min_files_for_compaction {
                match self.generations_of(&table.files) {
                    Ok(generations) => {
                        self.table_jobs(table, &generations, &mut out);
                    },
                    Err(e) => {
                        proof {
                            let i = choose|i: int| #[trigger]
                                first_unknown(table.files@, i) && file_generation(table.files@[i])
                                    == Err::<u8, CompactionError>(e);
                            assert(is_first_failure(self.settings(), tables@, t as int, i));
                        }
                        return Err(e);
                    },
                }
            }
            t += 1;
        }
        proof {
            assert(tables@.take(t as int) =~= tables@);
        }
        Ok(out)
    }
}

/// A moment, rounded toward the epoch to a multiple of the span.
pub open spec fn aligned(time: int, span: int) -> int {
    if time >= 0 {
        (time / span) * span
    } else {
        -(((-time) / span) * span)
    }
}

/// The chunk time of a compacted file: its earliest time, aligned to the duration of
/// its generation. Without a duration it is the earliest time itself.
pub fn chunk_time_for_duration(min_time: i64, target_duration: Duration) -> (r: i64)
    ensures
        r == if (target_duration.nanos as i64) > 0 {
            aligned(min_time as int, target_duration.nanos as i64 as int)
        } else {
            min_time as int
        },
{
    let nanos: i64 = #[verifier::truncate]
    (target_duration.as_nanos() as i64);
    if nanos > 0 {
        let size: u64 = if min_time >= 0 {
            min_time as u64
        } else {
            (-(min_time as i128)) as u64
        };
        let n: u64 = nanos as u64;
        proof {
            assert((size / n) * n <= size) by (nonlinear_arith)
                requires
                    n > 0,
            ;
            assert((size / n) * n >= 0) by (nonlinear_arith)
                requires
                    n > 0,
            ;
        }
        let down: u64 = (size / n) * n;
        if min_time >= 0 {
            down as i64
        } else {
            (-(down as i128)) as i64
        }
    } else {
        min_time
    }
}

/// A chunk time is a multiple of the duration and, from the epoch on, less than one
/// duration before the earliest time.
pub proof fn chunk_time_is_aligned(time: int, span: int)
    requires
        span > 0,
    ensures
        aligned(time, span) % span == 0,
        time >= 0 ==> aligned(time, span) <= time < aligned(time, span) + span,
{
    let size = if time >= 0 {
        time
    } else {
        -time
    };
    let q = size / span;
    vstd::arithmetic::div_mod::lemma_mod_multiples_basic(q, span);
    vstd::arithmetic::div_mod::lemma_mod_multiples_basic(-q, span);
    assert(-(q * span) == (-q) * span) by (nonlinear_arith);
    assert(q * span <= size < q * span + span) by (nonlinear_arith)
        requires
            span > 0,
            q == size / span,
    ;
}

/// The time column of a compacted batch. Batches are sorted by time, so the first and
/// the last value are enough.
#[derive(Debug, Clone, Copy, PartialEq, Eq, Structural)]
pub enum TimeColumn {
    /// There is none.
    Missing,
    /// It does not hold nanosecond timestamps.
    OtherType,
    /// It holds no values.
    Empty,
    Nanoseconds { first: i64, last: i64 },
}

/// A compacted batch, as far as it matters to the file that it goes to.
#[derive(Debug, Clone, Copy, PartialEq, Eq, Structural)]
pub struct BatchTimes {
    pub num_rows: u64,
    pub time: TimeColumn,
}

/// The time range of the batches, and their rows.
pub struct TimeRange {
    pub min_time: i64,
    pub max_time: i64,
    pub rows: nat,
}

/// The smaller of two times.
pub open spec fn earlier_of(a: i64, b: i64) -> i64 {
    if a <= b {
        a
    } else {
        b
    }
}

/// The larger of two times.
pub open spec fn later_of(a: i64, b: i64) -> i64 {
    if a >= b {
        a
    } else {
        b
    }
}

/// The time range of the batches that have times.
pub open spec fn time_range(batches: Seq<BatchTimes>) -> TimeRange
    decreases batches.len(),
{
    if batches.len() == 0 {
        TimeRange { min_time: i64::MAX, max_time: i64::MIN, rows: 0 }
    } else {
        let before = time_range(batches.drop_last());
        match batches.last().time {
            TimeColumn::Nanoseconds { first, last } => TimeRange {
                min_time: earlier_of(before.min_time, earlier_of(first, last)),
                max_time: later_of(before.max_time, later_of(first, last)),
                rows: before.rows + batches.last().num_rows as nat,
            },
            _ => before,
        }
    }
}

/// The failure of a batch without a usable time column.
pub open spec fn column_failure(batch: BatchTimes) -> Option<CompactionError> {
    match batch.time {
        TimeColumn::Missing => Some(CompactionError::NoTimeColumn),
        TimeColumn::OtherType => Some(CompactionError::TimeColumnType),
        _ => None,
    }
}

/// Every batch has a usable time column.
pub open spec fn all_usable(batches: Seq<BatchTimes>) -> bool {
    forall|i: int| 0 <= i < batches.len() ==> column_failure(#[trigger] batches[i]) is None
}

/// Batch `i` is the first without a usable time column.
pub open spec fn first_unusable(batches: Seq<BatchTimes>, i: int) -> bool {
    0 <= i < batches.len() && column_failure(batches[i]) is Some && all_usable(batches.take(i))
}

/// The earliest and the latest time of the batches, and how many rows they hold.
pub fn batches_time_range_and_rows(batches: &Vec<BatchTimes>) -> (r: Result<
    (i64, i64, u64),
    CompactionError,
>)
    ensures
        match r {
            Ok((min_time, max_time, rows)) => {
                let range = time_range(batches@);
                &&& all_usable(batches@)
                &&& range.rows > 0
                &&& min_time == range.min_time
                &&& max_time == range.max_time
                &&& rows == clamped(range.rows)
            },
            Err(CompactionError::NoRows) => all_usable(batches@) && time_range(batches@).rows == 0,
            Err(e) => exists|i: int| #[trigger]
                first_unusable(batches@, i) && column_failure(batches@[i]) == Some(e),
        },
{
    let mut min_time: i64 = i64::MAX;
    let mut max_time: i64 = i64::MIN;
    let mut rows: u64 = 0;
    let mut i: usize = 0;
    proof {
        assert(batches@.take(0) =~= Seq::empty());
    }
    while i < batches.len()
        invariant
            i <= batches.len(),
            all_usable(batches@.take(i as int)),
            ({
                let range = time_range(batches@.take(i as int));
                &&& min_time == range.min_time
                &&& max_time == range.max_time
                &&& rows == clamped(range.rows)
            }),
        decreases batches.len() - i,
    {
        let batch = batches[i];
        let ghost part = batches@.take(i + 1);
        proof {
            assert(part.drop_last() =~= batches@.take(i as int));
            assert(part.last() == batch);
            assert forall|j: int|
                0 <= j < part.len() && column_failure(batch) is None implies column_failure(
                #[trigger] part[j],
            ) is None by {
                if j < i {
                    assert(part[j] == batches@.take(i as int)[j]);
                }
            }
        }
        match batch.time {
            TimeColumn::Missing => {
                proof {
                    assert(first_unusable(batches@, i as int));
                }
                return Err(CompactionError::NoTimeColumn);
            },
            TimeColumn::OtherType => {
                proof {
                    assert(first_unusable(batches@, i as int));
                }
                return Err(CompactionError::TimeColumnType);
            },
            TimeColumn::Empty => {},
            TimeColumn::Nanoseconds { first, last } => {
                let low: i64 = if first <= last {
                    first
                } else {
                    last
                };
                let high: i64 = if first >= last {
                    first
                } else {
                    last
                };
                if low < min_time {
                    min_time = low;
                }
                if high > max_time {
                    max_time = high;
                }
                rows = rows.saturating_add(batch.num_rows);
            },
        }
        i += 1;
    }
    proof {
        assert(batches@.take(i as int) =~= batches@);
    }
    if rows == 0 {
        return Err(CompactionError::NoRows);
    }
    Ok((min_time, max_time, rows))
}

impl CompactionService {
    /// Where a compacted file is written.
    pub fn compacted_file_path(
        &self,
        job: &CompactionJob,
        generation: u8,
        chunk_time: i64,
        compaction_id: &str,
    ) -> (r: String)
        ensures
            r@ == stored_path(
                compacted_path_text(
                    self.host_text(),
                    job@,
                    generation,
                    date_segments(chunk_time),
                    compaction_id@,
                ),
            ),
            plain_names(self.host_text(), job@, compaction_id@) ==> r@ == compacted_path_text(
                self.host_text(),
                job@,
                generation,
                date_segments(chunk_time),
                compaction_id@,
            ),
    {
        let mut raw = self.host.clone();
        raw.append("/dbs/");
        raw.append(job.database_name.as_str());
        raw.append("-");
        push_decimal(&mut raw, job.database_id as u64);
        raw.append("/");
        raw.append(job.table_name.as_str());
        raw.append("-");
        push_decimal(&mut raw, job.table_id as u64);
        raw.append("/gen");
        push_decimal(&mut raw, generation as u64);
        raw.append("/");
        let date = format_chunk_time(chunk_time);
        raw.append(date.as_str());
        raw.append("/");
        raw.append(compaction_id);
        raw.append(".parquet");
        proof {
            let host = self.host_text();
            assert(raw@ =~= compacted_path_text(host, job@, generation, date@, compaction_id@));
            if plain_names(host, job@, compaction_id@) {
                compacted_path_is_plain(host, job@, generation, date@, compaction_id@);
            }
        }
        object_path(raw.as_str())
    }
}

impl CompactionService {
    /// Where the claim of a job is. Only one compactor at a time works on a table and pair
    /// of generations.
    pub fn claim_path(&self, job: &CompactionJob) -> (r: String)
        ensures
            r@ == claim_path_text(job@),
    {
        let mut raw = "_compactor/claims/".to_owned();
        push_decimal(&mut raw, job.database_id as u64);
        raw.append("-");
        push_decimal(&mut raw, job.table_id as u64);
        raw.append("-gen");
        push_decimal(&mut raw, job.source_generation as u64);
        raw.append("-to-gen");
        push_decimal(&mut raw, job.target_generation as u64);
        raw.append(".claim");
        proof {
            assert(raw@ =~= claim_path_text(job@));
            claim_path_is_plain(job@);
        }
        object_path(raw.as_str())
    }
}

/// What to ask of the store on behalf of a claim. A claim records when it was made.
#[derive(Debug, Clone, Copy, PartialEq, Eq, Structural)]
pub enum ClaimCall {
    /// Write the claim, if there is none.
    Create { acquired_at_unix_ms: i64 },
    /// Read when the claim was made.
    Read,
    /// Write the claim.
    Put { acquired_at_unix_ms: i64 },
}

/// What the store replied.
#[derive(Debug, PartialEq, Eq)]
pub enum ClaimReply {
    Written(Result<(), StoreFailure>),
    Claim(Result<i64, LeaseError>),
}

/// Which call on behalf of a claim is out.
#[derive(Debug, Clone, Copy, PartialEq, Eq, Structural)]
pub enum ClaimStage {
    Create,
    /// On a store that found a claim.
    Read,
    /// On a store that cannot create conditionally.
    ReadUnguarded,
    Put,
}

/// What an attempt to claim does next.
#[derive(Debug, PartialEq, Eq)]
pub enum ClaimStep {
    Call(ClaimStage, ClaimCall),
    /// The claim is ours.
    Held,
    /// Another compactor's claim is fresh.
    Refused,
    Failed(LeaseError),
}

/// The age of a claim in milliseconds; a claim from the future is new.
pub open spec fn claim_age(now: i64, acquired_at: i64) -> int {
    if now > acquired_at {
        now - acquired_at
    } else {
        0
    }
}

/// What an attempt to claim does next on a reply: a claim is created where there is
/// none, and taken over where the one that is there is stale. On a store that cannot
/// create conditionally the claim is looked for first.
pub open spec fn claim_step(
    stage: ClaimStage,
    now: i64,
    ttl: Duration,
    reply: ClaimReply,
) -> ClaimStep {
    let put = ClaimStep::Call(ClaimStage::Put, ClaimCall::Put { acquired_at_unix_ms: now });
    match (stage, reply) {
        (ClaimStage::Create, ClaimReply::Written(Ok(_))) => ClaimStep::Held,
        (
            ClaimStage::Create,
            ClaimReply::Written(Err(StoreFailure::AlreadyExists)),
        ) => ClaimStep::Call(ClaimStage::Read, ClaimCall::Read),
        (
            ClaimStage::Create,
            ClaimReply::Written(Err(StoreFailure::NotSupported)),
        ) => ClaimStep::Call(ClaimStage::ReadUnguarded, ClaimCall::Read),
        (ClaimStage::Create, ClaimReply::Written(Err(e))) => ClaimStep::Failed(
            LeaseError::ObjectStore(e),
        ),
        (ClaimStage::Read, ClaimReply::Claim(Ok(acquired_at))) => if claim_age(now, acquired_at)
            < ttl.millis() {
            ClaimStep::Refused
        } else {
            put
        },
        (ClaimStage::Read, ClaimReply::Claim(Err(e))) => ClaimStep::Failed(e),
        (ClaimStage::ReadUnguarded, ClaimReply::Claim(Ok(acquired_at))) => if claim_age(
            now,
            acquired_at,
        ) < ttl.millis() {
            ClaimStep::Refused
        } else {
            put
        },
        (
            ClaimStage::ReadUnguarded,
            ClaimReply::Claim(Err(LeaseError::ObjectStore(StoreFailure::NotFound))),
        ) => put,
        (ClaimStage::ReadUnguarded, ClaimReply::Claim(Err(e))) => ClaimStep::Failed(e),
        (ClaimStage::Put, ClaimReply::Written(Ok(_))) => ClaimStep::Held,
        (ClaimStage::Put, ClaimReply::Written(Err(e))) => ClaimStep::Failed(
            LeaseError::ObjectStore(e),
        ),
        _ => ClaimStep::Failed(LeaseError::UnexpectedReply),
    }
}

impl CompactionService {
    /// Goes on with an attempt to claim once the store has replied.
    pub fn acquire_claim(
        &self,
        stage: ClaimStage,
        now_unix_ms: i64,
        reply: ClaimReply,
    ) -> (r: ClaimStep)
        ensures
            r == claim_step(stage, now_unix_ms, self.settings().claim_ttl, reply),
    {
        let put = ClaimCall::Put { acquired_at_unix_ms: now_unix_ms };
        match (stage, reply) {
            (ClaimStage::Create, ClaimReply::Written(Ok(_)))
            | (ClaimStage::Put, ClaimReply::Written(Ok(_))) => ClaimStep::Held,
            (ClaimStage::Create, ClaimReply::Written(Err(e))) => match e {
                StoreFailure::AlreadyExists => ClaimStep::Call(ClaimStage::Read, ClaimCall::Read),
                StoreFailure::NotSupported => ClaimStep::Call(
                    ClaimStage::ReadUnguarded,
                    ClaimCall::Read,
                ),
                e => ClaimStep::Failed(LeaseError::ObjectStore(e)),
            },
            (ClaimStage::Read, ClaimReply::Claim(Ok(acquired_at)))
            | (ClaimStage::ReadUnguarded, ClaimReply::Claim(Ok(acquired_at))) => {
                let age: u128 = if now_unix_ms > acquired_at {
                    (now_unix_ms as i128 - acquired_at as i128) as u128
                } else {
                    0
                };
                if age < self.config.claim_ttl.as_millis() {
                    ClaimStep::Refused
                } else {
                    ClaimStep::Call(ClaimStage::Put, put)
                }
            },
            (ClaimStage::Read, ClaimReply::Claim(Err(e))) => ClaimStep::Failed(e),
            (ClaimStage::ReadUnguarded, ClaimReply::Claim(Err(e))) => match e {
                LeaseError::ObjectStore(StoreFailure::NotFound) => ClaimStep::Call(
                    ClaimStage::Put,
                    put,
                ),
                e => ClaimStep::Failed(e),
            },
            (ClaimStage::Put, ClaimReply::Written(Err(e))) => ClaimStep::Failed(
                LeaseError::ObjectStore(e),
            ),
            _ => ClaimStep::Failed(LeaseError::UnexpectedReply),
        }
    }
}

/// A compacted file that is about to be uploaded.
#[derive(Debug, PartialEq, Eq)]
pub struct CompactedOutput {
    pub path: String,
    pub row_count: u64,
    pub chunk_time: i64,
    pub min_time: i64,
    pub max_time: i64,
}

/// The chunk orders of the inputs of a job: each file is newer than those before it, so that
/// of two rows with the same key the one from the later file is kept.
pub fn input_orders(n: usize) -> (r: Vec<i64>)
    requires
        n <= i64::MAX,
    ensures
        r@.len() == n,
        forall|i: int| 0 <= i < n ==> r@[i] == i,
{
    let mut orders: Vec<i64> = Vec::new();
    while orders.len() < n
        invariant
            orders.len() <= n <= i64::MAX,
            forall|i: int| 0 <= i < orders.len() ==> orders@[i] == i,
        decreases n - orders.len(),
    {
        let next: i64 = orders.len() as i64;
        orders.push(next);
    }
    orders
}

impl CompactedOutput {
    /// The file under this id, with this size.
    pub open spec fn as_file(self, id: u64, size_bytes: u64) -> ParquetFile {
        ParquetFile {
            id,
            path: self.path,
            size_bytes,
            row_count: self.row_count,
            chunk_time: self.chunk_time,
            min_time: self.min_time,
            max_time: self.max_time,
        }
    }

    /// The file, once it is uploaded and its size is known.
    pub fn into_file(self, id: u64, size_bytes: u64) -> (r: ParquetFile)
        ensures
            r == self.as_file(id, size_bytes),
    {
        ParquetFile {
            id,
            path: self.path,
            size_bytes,
            row_count: self.row_count,
            chunk_time: self.chunk_time,
            min_time: self.min_time,
            max_time: self.max_time,
        }
    }
}

/// The batches that hold rows.
pub open spec fn with_rows(batches: Seq<BatchTimes>) -> Seq<BatchTimes> {
    batches.filter(|b: BatchTimes| b.num_rows > 0)
}

/// The chunk time of a file of this generation.
pub open spec fn output_chunk_time(config: CompactionConfig, generation: u8, min_time: i64) -> int {
    let nanos = config.generation_durations@[generation].nanos as i64;
    if nanos > 0 {
        aligned(min_time as int, nanos as int)
    } else {
        min_time as int
    }
}

impl CompactionService {
    /// `r` is what becomes of the batches of a job: the file that they go to, none without
    /// rows, or the failure.
    pub open spec fn is_output_of(
        self,
        job: Job,
        batches: Seq<BatchTimes>,
        compaction_id: Seq<char>,
        r: Result<Option<CompactedOutput>, CompactionError>,
    ) -> bool {
        let full = with_rows(batches);
        let range = time_range(full);
        let target = job.target_generation;
        let configured = self.settings().generation_durations@.contains_key(target);
        match r {
            Ok(None) => full.len() == 0,
            Ok(Some(out)) => {
                let path = compacted_path_text(
                    self.host_text(),
                    job,
                    target,
                    date_segments(out.chunk_time),
                    compaction_id,
                );
                &&& full.len() > 0
                &&& all_usable(full)
                &&& range.rows > 0
                &&& configured
                &&& out.min_time == range.min_time
                &&& out.max_time == range.max_time
                &&& out.row_count == clamped(range.rows)
                &&& out.chunk_time == output_chunk_time(self.settings(), target, range.min_time)
                &&& out.path@ == stored_path(path)
                &&& plain_names(self.host_text(), job, compaction_id) ==> out.path@ == path
            },
            Err(CompactionError::NoDuration { generation }) => full.len() > 0 && all_usable(full)
                && range.rows > 0 && !configured && generation == target,
            Err(CompactionError::NoRows) => full.len() > 0 && all_usable(full) && range.rows == 0,
            Err(e) => exists|i: int| #[trigger]
                first_unusable(full, i) && column_failure(full[i]) == Some(e),
        }
    }

    /// The file that the batches of a job go to. Without rows there is none.
    pub fn write_compacted_file(
        &self,
        job: &CompactionJob,
        batches: &Vec<BatchTimes>,
        compaction_id: &str,
    ) -> (r: Result<Option<CompactedOutput>, CompactionError>)
        ensures
            self.is_output_of(job@, batches@, compaction_id@, r),
    {
        let mut full: Vec<BatchTimes> = Vec::new();
        let mut i: usize = 0;
        proof {
            reveal(Seq::filter);
            assert(batches@.take(0) =~= Seq::empty());
        }
        while i < batches.len()
            invariant
                i <= batches.len(),
                full@ == with_rows(batches@.take(i as int)),
            decreases batches.len() - i,
        {
            proof {
                reveal(Seq::filter);
                assert(batches@.take(i + 1).drop_last() =~= batches@.take(i as int));
            }
            if batches[i].num_rows > 0 {
                full.push(batches[i]);
            }
            i += 1;
        }
        proof {
            assert(batches@.take(i as int) =~= batches@);
        }
        if full.len() == 0 {
            return Ok(None);
        }
        match batches_time_range_and_rows(&full) {
            Ok((min_time, max_time, row_count)) => match self.config.generation_durations.get(
                &job.target_generation,
            ) {
                Some(duration) => {
                    let chunk_time: i64 = chunk_time_for_duration(min_time, *duration);
                    let path = self.compacted_file_path(
                        job,
                        job.target_generation,
                        chunk_time,
                        compaction_id,
                    );
                    Ok(Some(CompactedOutput { path, row_count, chunk_time, min_time, max_time }))
                },
                None => Err(CompactionError::NoDuration { generation: job.target_generation }),
            },
            Err(e) => Err(e),
        }
    }

    /// The manifest that adds the new files to the table of a job and removes the old ones.
    pub open spec fn job_manifest(
        self,
        catalog_sequence_number: u64,
        job: Job,
        new_files: Seq<ParquetFile>,
        old_files: Seq<ParquetFile>,
    ) -> Manifest {
        let key = (job.database_id, job.table_id);
        Manifest {
            node_id: self.host_text(),
            snapshot_sequence_number: 0,
            wal_file_sequence_number: 0,
            catalog_sequence_number,
            added: with_files(Seq::empty(), key, new_files),
            removed: seq![TableEntry { key, files: old_files }],
        }
    }

    /// The manifest of a compaction: it adds the new files to the table and removes the old
    /// ones. It does not come from a write-ahead log, so its sequence numbers are zero.
    pub fn publish_compaction(
        &self,
        catalog_sequence_number: u64,
        job: &CompactionJob,
        new_files: &Vec<ParquetFile>,
        old_files: &Vec<ParquetFile>,
    ) -> (r: PersistedSnapshot)
        ensures
            r@ == self.job_manifest(catalog_sequence_number, job@, new_files@, old_files@),
    {
        let ghost key = (job.database_id, job.table_id);
        let mut snapshot = PersistedSnapshot::new(self.host.clone(), 0, 0, catalog_sequence_number);
        let mut i: usize = 0;
        proof {
            assert(new_files@.take(0) =~= Seq::empty());
        }
        while i < new_files.len()
            invariant
                i <= new_files.len(),
                key == (job.database_id, job.table_id),
                snapshot@ == (Manifest {
                    node_id: self.host_text(),
                    snapshot_sequence_number: 0,
                    wal_file_sequence_number: 0,
                    catalog_sequence_number,
                    added: with_files(Seq::empty(), key, new_files@.take(i as int)),
                    removed: Seq::empty(),
                }),
            decreases new_files.len() - i,
        {
            proof {
                assert(new_files@.take(i + 1).drop_last() =~= new_files@.take(i as int));
            }
            snapshot.add_parquet_file(job.database_id, job.table_id, new_files[i].duplicate());
            i += 1;
        }
        proof {
            assert(new_files@.take(i as int) =~= new_files@);
        }
        let mut removed: Vec<TableFiles> = Vec::new();
        removed.push(
            TableFiles {
                db_id: job.database_id,
                table_id: job.table_id,
                files: copy_files(old_files),
            },
        );
        snapshot.removed_files = removed;
        proof {
            assert(snapshot@.removed =~= seq![TableEntry { key, files: old_files@ }]);
        }
        snapshot
    }
}

/// The state once the files are added to the table one by one.
pub open spec fn after_adds(
    t: FileState,
    key: (DbId, TableId),
    files: Seq<ParquetFile>,
) -> FileState
    decreases files.len(),
{
    if files.len() == 0 {
        t
    } else {
        after_add(after_adds(t, key, files.drop_last()), key, files.last())
    }
}

impl CompactionService {
    /// Makes a compaction visible to queries: the new files join the table, the old ones
    /// leave it. The manifest has to be durable first.
    pub fn apply_compaction(
        &self,
        files: &mut PersistedFiles,
        job: &CompactionJob,
        new_files: &Vec<ParquetFile>,
        old_files: &Vec<ParquetFile>,
    )
        ensures
            final(files)@ == after_remove(
                after_adds(old(files)@, (job.database_id, job.table_id), new_files@),
                (job.database_id, job.table_id),
                path_set(old_files@),
            ),
    {
        let ghost start = files@;
        let ghost key = (job.database_id, job.table_id);
        let mut i: usize = 0;
        proof {
            assert(new_files@.take(0) =~= Seq::empty());
        }
        while i < new_files.len()
            invariant
                i <= new_files.len(),
                key == (job.database_id, job.table_id),
                files@ == after_adds(start, key, new_files@.take(i as int)),
            decreases new_files.len() - i,
        {
            proof {
                assert(new_files@.take(i + 1).drop_last() =~= new_files@.take(i as int));
            }
            files.add_persisted_file(job.database_id, job.table_id, &new_files[i]);
            i += 1;
        }
        proof {
            assert(new_files@.take(i as int) =~= new_files@);
        }
        files.remove_persisted_files(job.database_id, job.table_id, old_files);
    }
}

/// The result of a compaction.
#[derive(Debug, PartialEq, Eq)]
pub struct CompactionResult {
    pub compacted_files: Vec<ParquetFile>,
    pub deleted_files: Vec<ParquetFile>,
    pub total_size_reduction: u64,
    pub total_rows_compacted: u64,
}

/// `r` is the result of a job that wrote `output`.
pub open spec fn is_result_of(
    job: Job,
    output: Option<ParquetFile>,
    r: CompactionResult,
) -> bool {
    match output {
        Some(file) => {
            &&& r.compacted_files@ == seq![file]
            &&& r.deleted_files@ == job.files
            &&& r.total_size_reduction == less(clamped(total_bytes(job.files)), file.size_bytes)
            &&& r.total_rows_compacted == file.row_count
        },
        None => {
            &&& r.compacted_files@ == Seq::<ParquetFile>::empty()
            &&& r.deleted_files@ == Seq::<ParquetFile>::empty()
            &&& r.total_size_reduction == 0
            &&& r.total_rows_compacted == 0
        },
    }
}

impl CompactionService {
    /// The result of a job that wrote this file. A job that found its claim taken, or
    /// produced no rows, wrote none and deletes nothing.
    pub fn finish_compaction_job(&self, job: &CompactionJob, output: Option<ParquetFile>) -> (r:
        CompactionResult)
        ensures
            is_result_of(job@, output, r),
    {
        match output {
            Some(file) => {
                let totals = totals_of(&job.files);
                let reduction: u64 = totals.size_bytes.saturating_sub(file.size_bytes);
                let rows: u64 = file.row_count;
                let mut compacted: Vec<ParquetFile> = Vec::new();
                compacted.push(file);
                proof {
                    assert(compacted@ =~= seq![file]);
                }
                CompactionResult {
                    compacted_files: compacted,
                    deleted_files: copy_files(&job.files),
                    total_size_reduction: reduction,
                    total_rows_compacted: rows,
                }
            },
            None => CompactionResult {
                compacted_files: Vec::new(),
                deleted_files: Vec::new(),
                total_size_reduction: 0,
                total_rows_compacted: 0,
            },
        }
    }
}

/// How often a failed deletion is tried again.
pub const MAX_DELETE_RETRIES: u32 = 5;

/// What to do after an attempt to delete an input.
#[derive(Debug, Clone, Copy, PartialEq, Eq, Structural)]
pub enum DeleteStep {
    /// The object is gone.
    Done,
    /// Wait, then try again.
    Retry { retry: u32, delay: Duration },
    /// Wait, then leave the object behind. Nothing refers to it.
    GiveUp { delay: Duration },
}

/// What to do after attempt number `retry` (counted from zero) to delete an input: the
/// wait grows by two seconds with each failure.
pub fn after_delete(retry: u32, reply: &Result<(), StoreFailure>) -> (r: DeleteStep)
    requires
        retry <= MAX_DELETE_RETRIES,
    ensures
        r == match *reply {
            Ok(_) => DeleteStep::Done,
            Err(StoreFailure::NotFound) => DeleteStep::Done,
            Err(_) => {
                let delay = Duration { nanos: ((retry + 1) * 2 * 1_000_000_000) as u128 };
                if retry < MAX_DELETE_RETRIES {
                    DeleteStep::Retry { retry: (retry + 1) as u32, delay }
                } else {
                    DeleteStep::GiveUp { delay }
                }
            },
        },
{
    match reply {
        Ok(_) => DeleteStep::Done,
        Err(StoreFailure::NotFound) => DeleteStep::Done,
        Err(_) => {
            let delay = Duration::from_secs((retry as u64 + 1) * 2);
            if retry < MAX_DELETE_RETRIES {
                DeleteStep::Retry { retry: retry + 1, delay }
            } else {
                DeleteStep::GiveUp { delay }
            }
        },
    }
}

/// The count after this one. It starts over behind the largest.
pub open spec fn next_count(count: u64) -> u64 {
    if count == u64::MAX {
        0
    } else {
        (count + 1) as u64
    }
}

/// How many jobs of a cycle to run, and how many of them at a time.
#[derive(Debug, Clone, Copy, PartialEq, Eq, Structural)]
pub struct CyclePlan {
    pub run: usize,
    pub concurrent: usize,
}

/// The files of the jobs together, `counts[i]` being how many job `i` has.
pub open spec fn files_together(counts: Seq<usize>) -> nat
    decreases counts.len(),
{
    if counts.len() == 0 {
        0
    } else {
        files_together(counts.drop_last()) + counts.last() as nat
    }
}

/// The first `n` jobs are as many as fit: the first one always, unless nothing may be compacted,
/// and as many more as keep their files together within the limit.
pub open spec fn is_longest_fit(counts: Seq<usize>, limit: usize, n: int) -> bool {
    &&& 0 <= n <= counts.len()
    &&& limit == 0 ==> n == 0
    &&& limit > 0 && counts.len() > 0 ==> n >= 1
    &&& n <= 1 || files_together(counts.take(n)) <= limit
    &&& 1 <= n < counts.len() ==> files_together(counts.take(n + 1)) > limit
}

impl CompactionService {
    /// Plans a cycle of the jobs that have these numbers of files: the first job, which takes
    /// all files of its generation however many they are, and as many behind it as together
    /// with it have at most `max_files_per_run` files, at most four at a time. With a bound of
    /// zero nothing runs.
    pub fn plan_cycle(&self, file_counts: &Vec<usize>) -> (r: CyclePlan)
        ensures
            is_longest_fit(file_counts@, self.settings().max_files_per_run, r.run as int),
            file_counts.len() > 0 && self.settings().max_files_per_run > 0 ==> r.run >= 1,
            r.concurrent == if file_counts.len() <= 4 {
                file_counts.len()
            } else {
                4
            },
    {
        let limit: usize = self.config.max_files_per_run;
        let concurrent: usize = if file_counts.len() <= 4 {
            file_counts.len()
        } else {
            4
        };
        if limit == 0 || file_counts.len() == 0 {
            return CyclePlan { run: 0, concurrent };
        }
        let mut run: usize = 1;
        let mut files: usize = file_counts[0];
        proof {
            assert(file_counts@.take(1).drop_last() =~= Seq::empty());
            assert(files_together(file_counts@.take(1).drop_last()) == 0);
        }
        while run < file_counts.len() && files <= limit && file_counts[run] <= limit - files
            invariant
                1 <= run <= file_counts.len(),
                run <= 1 || files <= limit,
                files == files_together(file_counts@.take(run as int)),
            decreases file_counts.len() - run,
        {
            proof {
                assert(file_counts@.take(run + 1).drop_last() =~= file_counts@.take(run as int));
            }
            files = files + file_counts[run];
            run += 1;
        }
        proof {
            if run < file_counts.len() {
                assert(file_counts@.take(run + 1).drop_last() =~= file_counts@.take(run as int));
            }
        }
        CyclePlan { run, concurrent }
    }

    /// Counts a cycle that ran, and says whether a checkpoint is due after it: every so
    /// many cycles, if there is an inventory to write it to. Cycles are counted only where
    /// checkpoints are written.
    pub fn count_cycle(&mut self, has_inventory: bool) -> (r: bool)
        ensures
            final(self).settings() == old(self).settings(),
            final(self).host_text() == old(self).host_text(),
            ({
                let n = old(self).settings().checkpoint_every_n_cycles;
                let counted = n > 0 && has_inventory;
                &&& final(self).cycle_count() == if counted {
                    next_count(old(self).cycle_count())
                } else {
                    old(self).cycle_count()
                }
                &&& r == (counted && next_count(old(self).cycle_count()) % n as u64 == 0)
            }),
    {
        let n: u64 = self.config.checkpoint_every_n_cycles as u64;
        if n > 0 && has_inventory {
            self.cycles = if self.cycles == u64::MAX {
                0
            } else {
                self.cycles + 1
            };
            self.cycles % n == 0
        } else {
            false
        }
    }

    /// Whether a cycle may run now: compaction is enabled, and where a lease is attached,
    /// this process leads.
    pub fn may_run_cycle(&self, lease: Option<&Lease>, now_unix_ms: i64) -> (r: bool)
        ensures
            r == (self.settings().enabled && match lease {
                Some(l) => l@.leads(now_unix_ms),
                None => true,
            }),
    {
        self.config.enabled && match lease {
            Some(l) => l.is_leader(now_unix_ms),
            None => true,
        }
    }
}

} // verus!

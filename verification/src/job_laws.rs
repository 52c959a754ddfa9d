//! Which compactions are planned, in terms of the tables and their files.

use vstd::prelude::*;

use crate::compaction::{
    all_jobs, earliest, file_generation, is_candidate, is_due,
    job_for, jobs_up_to, latest, of_generation, span, time_range, BatchTimes, CatalogTable,
    CompactionConfig, Job,
};
use crate::files::ParquetFile;
use crate::text::texts;

verus! {

/// The earliest time is that of one of the files, and no file has an earlier one; likewise the
/// latest.
pub proof fn ends_are_reached(files: Seq<ParquetFile>)
    requires
        files.len() > 0,
    ensures
        forall|i: int| 0 <= i < files.len() ==> earliest(files) <= (#[trigger] files[i]).min_time,
        forall|i: int| 0 <= i < files.len() ==> (#[trigger] files[i]).max_time <= latest(files),
        exists|i: int| 0 <= i < files.len() && (#[trigger] files[i]).min_time == earliest(files),
        exists|i: int| 0 <= i < files.len() && (#[trigger] files[i]).max_time == latest(files),
    decreases files.len(),
{
    let n = files.len() - 1;
    if n == 0 {
        assert(files[0].min_time == earliest(files));
        assert(files[0].max_time == latest(files));
    } else {
        let rest = files.drop_last();
        ends_are_reached(rest);
        assert forall|i: int| 0 <= i < files.len() implies earliest(files)
            <= (#[trigger] files[i]).min_time && files[i].max_time <= latest(files) by {
            if i < n {
                assert(rest[i] == files[i]);
            }
        }
        let low = choose|i: int|
            0 <= i < rest.len() && (#[trigger] rest[i]).min_time == earliest(rest);
        let high = choose|i: int|
            0 <= i < rest.len() && (#[trigger] rest[i]).max_time == latest(rest);
        assert(files[low] == rest[low]);
        assert(files[high] == rest[high]);
        assert(files[n] == files.last());
    }
}

/// The files span a time exactly if one of them ends that much after one of them starts.
pub proof fn span_is_between_two_files(files: Seq<ParquetFile>, width: nat)
    requires
        files.len() > 0,
        width > 0,
    ensures
        span(files) >= width <==> exists|a: int, b: int|
            0 <= a < files.len() && 0 <= b < files.len() && #[trigger] files[a].max_time
                - #[trigger] files[b].min_time >= width,
{
    ends_are_reached(files);
    let low = choose|i: int|
        0 <= i < files.len() && (#[trigger] files[i]).min_time == earliest(files);
    let high = choose|i: int|
        0 <= i < files.len() && (#[trigger] files[i]).max_time == latest(files);
    if span(files) >= width {
        assert(files[high].max_time - files[low].min_time >= width);
    }
}

/// Those of the files that are of this generation.
pub open spec fn picked(files: Seq<ParquetFile>, generation: int) -> Seq<ParquetFile> {
    files.filter(
        |f: ParquetFile| file_generation(f) is Ok && file_generation(f)->Ok_0 == generation,
    )
}

/// The files of the table that are of this generation.
pub open spec fn group_of(table: CatalogTable, generation: int) -> Seq<ParquetFile> {
    picked(table.files@, generation)
}

/// One of the files ends at least `width` after one of them starts.
pub open spec fn reach_over(files: Seq<ParquetFile>, width: int) -> bool {
    width == 0 || exists|a: int, b: int|
        0 <= a < files.len() && 0 <= b < files.len() && #[trigger] files[a].max_time
            - #[trigger] files[b].min_time >= width
}

/// The files of one generation of a table are ready for the next: the table is there, one of
/// the first four generations has some files and enough of them, the next generation has a
/// duration, and the files reach over it.
pub open spec fn is_ready(config: CompactionConfig, table: CatalogTable, generation: int) -> bool {
    let group = group_of(table, generation);
    &&& 1 <= generation <= 4
    &&& !table.database_deleted
    &&& !table.table_deleted
    &&& group.len() >= 1
    &&& group.len() >= config.min_files_for_compaction
    &&& config.generation_durations@.contains_key((generation + 1) as u8)
    &&& reach_over(group, config.generation_durations@[(generation + 1) as u8].nanos as int)
}

/// The job takes the files of this generation of the table into the next.
pub open spec fn is_job_of(job: Job, table: CatalogTable, generation: int) -> bool {
    &&& job.database_id == table.database_id
    &&& job.database_name == table.database_name@
    &&& job.table_id == table.table_id
    &&& job.table_name == table.table_name@
    &&& job.source_generation == generation
    &&& job.target_generation == generation + 1
    &&& job.files == group_of(table, generation)
    &&& job.sort_key == texts(table.sort_key@)
}

/// A table and a generation come before another table and generation.
pub open spec fn comes_before(a: (int, int), b: (int, int)) -> bool {
    a.0 < b.0 || (a.0 == b.0 && a.1 < b.1)
}

/// The jobs are those of the tables and generations in `at`: all that are ready, each once, and
/// no others, table by table from the lowest generation up.
pub open spec fn is_plan(
    config: CompactionConfig,
    tables: Seq<CatalogTable>,
    list: Seq<Job>,
    at: Seq<(int, int)>,
) -> bool {
    &&& at.len() == list.len()
    &&& forall|n: int|
        0 <= n < at.len() ==> 0 <= (#[trigger] at[n]).0 < tables.len() && is_ready(
            config,
            tables[at[n].0],
            at[n].1,
        ) && is_job_of(list[n], tables[at[n].0], at[n].1)
    &&& forall|t: int, g: int|
        0 <= t < tables.len() && #[trigger] is_ready(config, tables[t], g) ==> at.contains((t, g))
    &&& forall|n: int, m: int| 0 <= n < m < at.len() ==> comes_before(at[n], at[m])
}

proof fn due_is_ready(config: CompactionConfig, table: CatalogTable, generation: u8)
    requires
        is_candidate(config, table),
        generation >= 1,
    ensures
        is_due(config, table, generation) <==> is_ready(config, table, generation as int),
        is_job_of(job_for(table, generation), table, generation as int) || generation >= 255,
{
    let group = of_generation(table.files@, generation);
    picked_are_of_generation(table.files@, generation);
    if group.len() > 0 && generation < 5 && config.generation_durations@.contains_key(
        (generation + 1) as u8,
    ) {
        let width = config.generation_durations@[(generation + 1) as u8].nanos as nat;
        if width > 0 {
            span_is_between_two_files(group, width);
        }
    }
}

proof fn picked_are_of_generation(files: Seq<ParquetFile>, generation: u8)
    ensures
        picked(files, generation as int) == of_generation(files, generation),
    decreases files.len(),
{
    reveal(Seq::filter);
    if files.len() > 0 {
        picked_are_of_generation(files.drop_last(), generation);
    }
}

/// Only the generations of a candidate can be ready.
proof fn ready_is_candidate(config: CompactionConfig, table: CatalogTable, generation: int)
    requires
        is_ready(config, table, generation),
    ensures
        is_candidate(config, table),
{
    let keep = |f: ParquetFile|
        file_generation(f) is Ok && file_generation(f)->Ok_0 == generation;
    table.files@.lemma_filter_len(keep);
}

proof fn plan_of_table(
    config: CompactionConfig,
    tables: Seq<CatalogTable>,
    t: int,
    generation: u8,
) -> (at: Seq<(int, int)>)
    requires
        0 <= t < tables.len(),
        is_candidate(config, tables[t]),
        generation <= 5,
    ensures
        ({
            let list = jobs_up_to(config, tables[t], generation);
            &&& at.len() == list.len()
            &&& forall|n: int|
                0 <= n < at.len() ==> (#[trigger] at[n]).0 == t && at[n].1 <= generation
                    && is_ready(config, tables[t], at[n].1) && is_job_of(
                    list[n],
                    tables[t],
                    at[n].1,
                )
            &&& forall|g: int|
                g <= generation && #[trigger] is_ready(config, tables[t], g) ==> at.contains(
                    (t, g),
                )
            &&& forall|n: int, m: int| 0 <= n < m < at.len() ==> comes_before(at[n], at[m])
        }),
    decreases generation,
{
    if generation == 0 {
        Seq::empty()
    } else {
        let below = (generation - 1) as u8;
        let before = plan_of_table(config, tables, t, below);
        let list = jobs_up_to(config, tables[t], generation);
        due_is_ready(config, tables[t], generation);
        if is_due(config, tables[t], generation) {
            let at = before.push((t, generation as int));
            assert forall|g: int|
                g <= generation && #[trigger] is_ready(config, tables[t], g) implies at.contains(
                (t, g),
            ) by {
                if g <= below {
                    let i = choose|i: int| 0 <= i < before.len() && before[i] == (t, g);
                    assert(at[i] == (t, g));
                } else {
                    assert(at[before.len() as int] == (t, g));
                }
            }
            at
        } else {
            assert forall|g: int|
                g <= generation && #[trigger] is_ready(
                    config,
                    tables[t],
                    g,
                ) implies before.contains((t, g)) by {
                assert(g <= below);
            }
            before
        }
    }
}

/// The compactions that are planned: a job for each generation from the first to the fourth of
/// a table that is not deleted, if it has enough files of that generation, which reach over the
/// duration of the next, and none but these; table by table, from the lowest generation up.
pub proof fn due_generations_are_planned(
    config: CompactionConfig,
    tables: Seq<CatalogTable>,
) -> (at: Seq<(int, int)>)
    ensures
        is_plan(config, tables, all_jobs(config, tables), at),
    decreases tables.len(),
{
    if tables.len() == 0 {
        Seq::empty()
    } else {
        let rest = tables.drop_last();
        let t = tables.len() - 1;
        let before = due_generations_are_planned(config, rest);
        let list = all_jobs(config, tables);
        let earlier = all_jobs(config, rest);
        assert(tables[t] == tables.last());
        assert forall|n: int| 0 <= n < before.len() implies 0 <= (#[trigger] before[n]).0 < t
            && tables[before[n].0] == rest[before[n].0] by {}
        let own = if is_candidate(config, tables.last()) {
            plan_of_table(config, tables, t, 5)
        } else {
            Seq::empty()
        };
        let at = before + own;
        assert forall|n: int| 0 <= n < at.len() implies 0 <= (#[trigger] at[n]).0 < tables.len()
            && is_ready(config, tables[at[n].0], at[n].1) && is_job_of(
            list[n],
            tables[at[n].0],
            at[n].1,
        ) by {
            if n < before.len() {
                assert(at[n] == before[n]);
                assert(list[n] == earlier[n]);
            } else {
                assert(at[n] == own[n - before.len()]);
                assert(list[n] == jobs_up_to(config, tables[t], 5)[n - before.len()]);
            }
        }
        assert forall|s: int, g: int|
            0 <= s < tables.len() && #[trigger] is_ready(config, tables[s], g) implies at.contains(
            (s, g),
        ) by {
            if s < t {
                assert(is_ready(config, rest[s], g));
                let i = choose|i: int| 0 <= i < before.len() && before[i] == (s, g);
                assert(at[i] == (s, g));
            } else {
                ready_is_candidate(config, tables[t], g);
                assert(own.contains((t, g)));
                let i = choose|i: int| 0 <= i < own.len() && own[i] == (t, g);
                assert(at[before.len() + i] == (s, g));
            }
        }
        assert forall|n: int, m: int| 0 <= n < m < at.len() implies comes_before(at[n], at[m]) by {
            if m < before.len() {
                assert(comes_before(before[n], before[m]));
            } else if n >= before.len() {
                assert(comes_before(own[n - before.len()], own[m - before.len()]));
            } else {
                assert(at[n] == before[n] && at[m] == own[m - before.len()]);
            }
        }
        at
    }
}

/// The time range of compacted rows covers the times of every batch, and both of its ends are
/// times of a batch; the rows are those of the batches with times.
pub proof fn range_covers_batches(batches: Seq<BatchTimes>)
    ensures
        forall|i: int|
            #![trigger batches[i]]
            0 <= i < batches.len() && batches[i].time is Nanoseconds ==> {
                &&& time_range(batches).min_time <= batches[i].time->first
                &&& time_range(batches).min_time <= batches[i].time->last
                &&& batches[i].time->first <= time_range(batches).max_time
                &&& batches[i].time->last <= time_range(batches).max_time
            },
        (exists|i: int| 0 <= i < batches.len() && (#[trigger] batches[i]).time is Nanoseconds) ==> {
            &&& exists|i: int|
                0 <= i < batches.len() && is_time_of(
                    #[trigger] batches[i],
                    time_range(batches).min_time,
                )
            &&& exists|i: int|
                0 <= i < batches.len() && is_time_of(
                    #[trigger] batches[i],
                    time_range(batches).max_time,
                )
        },
    decreases batches.len(),
{
    if batches.len() > 0 {
        let rest = batches.drop_last();
        let n = batches.len() - 1;
        let range = time_range(batches);
        let before = time_range(rest);
        range_covers_batches(rest);
        assert(batches[n] == batches.last());
        assert forall|i: int|
            #![trigger batches[i]]
            0 <= i < batches.len() && batches[i].time is Nanoseconds implies {
            &&& range.min_time <= batches[i].time->first
            &&& range.min_time <= batches[i].time->last
            &&& batches[i].time->first <= range.max_time
            &&& batches[i].time->last <= range.max_time
        } by {
            if i < n {
                assert(rest[i] == batches[i]);
            }
        }
        if exists|i: int| 0 <= i < rest.len() && (#[trigger] rest[i]).time is Nanoseconds {
            let low = choose|i: int|
                0 <= i < rest.len() && is_time_of(#[trigger] rest[i], before.min_time);
            let high = choose|i: int|
                0 <= i < rest.len() && is_time_of(#[trigger] rest[i], before.max_time);
            assert(rest[low] == batches[low] && rest[high] == batches[high]);
            if range.min_time != before.min_time {
                assert(is_time_of(batches[n], range.min_time));
            }
            if range.max_time != before.max_time {
                assert(is_time_of(batches[n], range.max_time));
            }
        } else if exists|i: int|
            0 <= i < batches.len() && (#[trigger] batches[i]).time is Nanoseconds {
            let i = choose|i: int|
                0 <= i < batches.len() && (#[trigger] batches[i]).time is Nanoseconds;
            if i < n {
                assert(rest[i] == batches[i]);
            }
            no_times_no_range(rest);
            assert(is_time_of(batches[n], range.min_time));
            assert(is_time_of(batches[n], range.max_time));
        }
    }
}

proof fn no_times_no_range(batches: Seq<BatchTimes>)
    requires
        forall|i: int| 0 <= i < batches.len() ==> !((#[trigger] batches[i]).time is Nanoseconds),
    ensures
        time_range(batches).min_time == i64::MAX,
        time_range(batches).max_time == i64::MIN,
        time_range(batches).rows == 0,
    decreases batches.len(),
{
    if batches.len() > 0 {
        let rest = batches.drop_last();
        assert forall|i: int| 0 <= i < rest.len() implies !((
        #[trigger] rest[i]).time is Nanoseconds) by {
            assert(rest[i] == batches[i]);
        }
        assert(batches[batches.len() - 1] == batches.last());
        no_times_no_range(rest);
    }
}

/// The time is one of the two that are known of the batch.
pub open spec fn is_time_of(batch: BatchTimes, time: i64) -> bool {
    batch.time is Nanoseconds && (batch.time->first == time || batch.time->last == time)
}

/// The rows of batches that are put behind one another add up; a batch with times has all of
/// its rows, and another one none.
pub proof fn batch_rows_add_up(a: Seq<BatchTimes>, b: Seq<BatchTimes>, one: BatchTimes)
    ensures
        time_range(a + b).rows == time_range(a).rows + time_range(b).rows,
        time_range(seq![one]).rows == if one.time is Nanoseconds {
            one.num_rows as nat
        } else {
            0
        },
    decreases b.len(),
{
    let single = seq![one];
    assert(single.drop_last() =~= Seq::empty());
    assert(time_range(single.drop_last()).rows == 0);
    if b.len() == 0 {
        assert(a + b =~= a);
    } else {
        batch_rows_add_up(a, b.drop_last(), one);
        assert((a + b).drop_last() =~= a + b.drop_last());
    }
}

} // verus!

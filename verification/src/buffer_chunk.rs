//! Chunks of rows that are not persisted yet.

use vstd::prelude::*;

use crate::chunk::{partition_key, table_partition_id, TablePartition};
use crate::files::{ChunkFilter, DbId, TableId};
use crate::fold::clamped;

verus! {

/// A batch of rows, with the number of them.
#[derive(Debug, PartialEq, Eq)]
pub struct SizedBatch<B> {
    pub batch: B,
    pub num_rows: u64,
}

/// The rows of the batches together.
pub open spec fn rows_in<B>(batches: Seq<SizedBatch<B>>) -> nat
    decreases batches.len(),
{
    if batches.len() == 0 {
        0
    } else {
        rows_in(batches.drop_last()) + batches.last().num_rows as nat
    }
}

fn count_rows<B>(batches: &Vec<SizedBatch<B>>) -> (r: u64)
    ensures
        r == clamped(rows_in(batches@)),
{
    let mut rows: u64 = 0;
    let mut i: usize = 0;
    proof {
        assert(batches@.take(0) =~= Seq::empty());
    }
    while i < batches.len()
        invariant
            i <= batches.len(),
            rows == clamped(rows_in(batches@.take(i as int))),
        decreases batches.len() - i,
    {
        proof {
            assert(batches@.take(i + 1).drop_last() =~= batches@.take(i as int));
        }
        rows = rows.saturating_add(batches[i].num_rows);
        i += 1;
    }
    proof {
        assert(batches@.take(i as int) =~= batches@);
    }
    rows
}

/// The earliest and the latest time of some rows.
#[derive(Debug, Clone, Copy, PartialEq, Eq, Structural)]
pub struct TimestampMinMax {
    pub min: i64,
    pub max: i64,
}

impl TimestampMinMax {
    /// The range that spans both.
    pub open spec fn spanning(self, other: TimestampMinMax) -> TimestampMinMax {
        TimestampMinMax {
            min: if self.min <= other.min {
                self.min
            } else {
                other.min
            },
            max: if self.max >= other.max {
                self.max
            } else {
                other.max
            },
        }
    }

    /// The range that spans both.
    pub fn union(&self, other: &TimestampMinMax) -> (r: TimestampMinMax)
        ensures
            r == self.spanning(*other),
    {
        TimestampMinMax {
            min: if self.min <= other.min {
                self.min
            } else {
                other.min
            },
            max: if self.max >= other.max {
                self.max
            } else {
                other.max
            },
        }
    }
}

/// Rows of a table in memory, as a query sees them.
#[derive(Debug, PartialEq, Eq)]
pub struct BufferChunk<B> {
    pub batches: Vec<SizedBatch<B>>,
    pub row_count: u64,
    pub times: Option<TimestampMinMax>,
    pub partition_id: TablePartition,
    pub chunk_order: i64,
}

/// Puts batches that another node sent into one chunk. Without rows there is none.
pub fn batches_to_buffer_chunks<B>(
    batches: Vec<SizedBatch<B>>,
    chunk_order: i64,
    db_id: DbId,
    table_id: TableId,
) -> (r: Vec<BufferChunk<B>>)
    ensures
        rows_in(batches@) == 0 ==> r.len() == 0,
        rows_in(batches@) > 0 ==> {
            &&& r.len() == 1
            &&& r@[0].batches@ == batches@
            &&& r@[0].row_count == clamped(rows_in(batches@))
            &&& r@[0].times is None
            &&& r@[0].partition_id.table == 0
            &&& r@[0].partition_id.key@ == partition_key(db_id, table_id)
            &&& r@[0].chunk_order == chunk_order
        },
{
    let mut out: Vec<BufferChunk<B>> = Vec::new();
    let row_count: u64 = count_rows(&batches);
    if row_count == 0 {
        return out;
    }
    out.push(
        BufferChunk {
            batches,
            row_count,
            times: None,
            partition_id: table_partition_id(db_id, table_id),
            chunk_order,
        },
    );
    out
}

/// The rows of one partition of a table in one log file.
#[derive(Debug, PartialEq, Eq)]
pub struct TailPartition<B> {
    pub chunk_time: i64,
    pub times: TimestampMinMax,
    pub batches: Vec<SizedBatch<B>>,
}

/// What a [`TailPartition`] holds.
pub struct PartitionRows<B> {
    pub chunk_time: i64,
    pub times: TimestampMinMax,
    pub batches: Seq<SizedBatch<B>>,
}

impl<B> View for TailPartition<B> {
    type V = PartitionRows<B>;

    open spec fn view(&self) -> PartitionRows<B> {
        PartitionRows {
            chunk_time: self.chunk_time,
            times: self.times,
            batches: self.batches@,
        }
    }
}

/// The rows of a table in one log file: the times that they span, and the rows by
/// partition.
#[derive(Debug, PartialEq, Eq)]
pub struct TailSlice<B> {
    pub times: TimestampMinMax,
    pub partitions: Vec<TailPartition<B>>,
}

/// What a list of partitions holds.
pub open spec fn partition_rows<B>(list: Seq<TailPartition<B>>) -> Seq<PartitionRows<B>> {
    Seq::new(list.len(), |i: int| list[i]@)
}

/// `list` with the rows of `part`: behind those that it has of the same partition, or at
/// the end. A partition without batches adds nothing.
pub open spec fn with_partition<B>(
    list: Seq<PartitionRows<B>>,
    part: PartitionRows<B>,
) -> Seq<PartitionRows<B>>
    decreases list.len(),
{
    if part.batches.len() == 0 {
        list
    } else if list.len() == 0 {
        seq![part]
    } else if list[0].chunk_time == part.chunk_time {
        seq![
            PartitionRows {
                chunk_time: part.chunk_time,
                times: list[0].times.spanning(part.times),
                batches: list[0].batches + part.batches,
            },
        ] + list.skip(1)
    } else {
        seq![list[0]] + with_partition(list.skip(1), part)
    }
}

/// [`with_partition`] for each of the parts in turn.
pub open spec fn with_partitions<B>(
    list: Seq<PartitionRows<B>>,
    parts: Seq<PartitionRows<B>>,
) -> Seq<PartitionRows<B>>
    decreases parts.len(),
{
    if parts.len() == 0 {
        list
    } else {
        with_partition(with_partitions(list, parts.drop_last()), parts.last())
    }
}

/// The rows of the slices that can matter to a query, by partition. A slice that does
/// not overlap the time range of the query is passed over whole.
pub open spec fn coalesced<B>(slices: Seq<TailSlice<B>>, filter: ChunkFilter) -> Seq<
    PartitionRows<B>,
>
    decreases slices.len(),
{
    if slices.len() == 0 {
        Seq::empty()
    } else {
        let before = coalesced(slices.drop_last(), filter);
        let slice = slices.last();
        if filter.admits(slice.times.min, slice.times.max) {
            with_partitions(before, partition_rows(slice.partitions@))
        } else {
            before
        }
    }
}

proof fn with_partition_at<B>(list: Seq<PartitionRows<B>>, part: PartitionRows<B>, i: int)
    requires
        part.batches.len() > 0,
        0 <= i < list.len(),
        list[i].chunk_time == part.chunk_time,
        forall|j: int| 0 <= j < i ==> (#[trigger] list[j]).chunk_time != part.chunk_time,
    ensures
        with_partition(list, part) == list.update(
            i,
            PartitionRows {
                chunk_time: part.chunk_time,
                times: list[i].times.spanning(part.times),
                batches: list[i].batches + part.batches,
            },
        ),
    decreases list.len(),
{
    let merged = PartitionRows {
        chunk_time: part.chunk_time,
        times: list[i].times.spanning(part.times),
        batches: list[i].batches + part.batches,
    };
    if i > 0 {
        let rest = list.skip(1);
        assert(list[0].chunk_time != part.chunk_time);
        assert forall|j: int| 0 <= j < i - 1 implies (#[trigger] rest[j]).chunk_time
            != part.chunk_time by {
            assert(rest[j] == list[j + 1]);
        }
        with_partition_at(rest, part, i - 1);
    }
    assert(with_partition(list, part) =~= list.update(i, merged));
}

proof fn with_partition_absent<B>(list: Seq<PartitionRows<B>>, part: PartitionRows<B>)
    requires
        part.batches.len() > 0,
        forall|j: int| 0 <= j < list.len() ==> (#[trigger] list[j]).chunk_time != part.chunk_time,
    ensures
        with_partition(list, part) == list.push(part),
    decreases list.len(),
{
    if list.len() > 0 {
        let rest = list.skip(1);
        assert(list[0].chunk_time != part.chunk_time);
        assert forall|j: int| 0 <= j < rest.len() implies (#[trigger] rest[j]).chunk_time
            != part.chunk_time by {
            assert(rest[j] == list[j + 1]);
        }
        with_partition_absent(rest, part);
    }
    assert(with_partition(list, part) =~= list.push(part));
}

fn absorb<B>(list: &mut Vec<TailPartition<B>>, part: TailPartition<B>)
    ensures
        partition_rows(final(list)@) == with_partition(partition_rows(old(list)@), part@),
{
    if part.batches.len() == 0 {
        return;
    }
    let ghost rows = partition_rows(list@);
    let mut i: usize = 0;
    while i < list.len()
        invariant
            i <= list.len(),
            part.batches.len() > 0,
            list@ == old(list)@,
            rows == partition_rows(list@),
            forall|j: int| 0 <= j < i ==> (#[trigger] rows[j]).chunk_time != part.chunk_time,
        decreases list.len() - i,
    {
        if list[i].chunk_time == part.chunk_time {
            proof {
                assert(rows[i as int].chunk_time == part.chunk_time);
                with_partition_at(rows, part@, i as int);
            }
            let ghost want = PartitionRows {
                chunk_time: part.chunk_time,
                times: rows[i as int].times.spanning(part.times),
                batches: rows[i as int].batches + part.batches@,
            };
            let times: TimestampMinMax = list[i].times.union(&part.times);
            let mut batches = part.batches;
            list[i].times = times;
            list[i].batches.append(&mut batches);
            proof {
                assert(partition_rows(list@) =~= rows.update(i as int, want));
            }
            return;
        }
        proof {
            assert(rows[i as int].chunk_time != part.chunk_time);
        }
        i += 1;
    }
    proof {
        with_partition_absent(rows, part@);
    }
    list.push(part);
    proof {
        assert(partition_rows(list@) =~= rows.push(part@));
    }
}

/// What a chunk of the tail holds.
pub open spec fn is_tail_chunk<B>(
    chunk: BufferChunk<B>,
    rows: PartitionRows<B>,
    chunk_order: i64,
    db_id: DbId,
    table_id: TableId,
) -> bool {
    &&& chunk.batches@ == rows.batches
    &&& chunk.row_count == clamped(rows_in(rows.batches))
    &&& chunk.times == Some(rows.times)
    &&& chunk.partition_id.table == 0
    &&& chunk.partition_id.key@ == partition_key(db_id, table_id)
    &&& chunk.chunk_order == chunk_order
}

/// The chunks of a table in the tails of the logs: one for each partition, whatever the
/// number of log files. The slices are in the order in which the rows were written, so
/// that newer rows come later in each chunk. Like every other source of chunks, these
/// are in the partition of the table.
pub fn get_table_chunks<B>(
    slices: Vec<TailSlice<B>>,
    filter: &ChunkFilter,
    chunk_order: i64,
    db_id: DbId,
    table_id: TableId,
) -> (r: Vec<BufferChunk<B>>)
    ensures
        r.len() == coalesced(slices@, *filter).len(),
        forall|i: int|
            0 <= i < r.len() ==> is_tail_chunk(
                #[trigger] r@[i],
                coalesced(slices@, *filter)[i],
                chunk_order,
                db_id,
                table_id,
            ),
{
    let ghost all = slices@;
    let mut merged: Vec<TailPartition<B>> = Vec::new();
    proof {
        assert(all.take(0) =~= Seq::empty());
        assert(partition_rows(merged@) =~= Seq::empty());
    }
    for slice in it: slices
        invariant
            it.seq() == all,
            partition_rows(merged@) == coalesced(all.take(it.index()), *filter),
    {
        let ghost n = it.index();
        proof {
            assert(all.take(n + 1).drop_last() =~= all.take(n));
            assert(all.take(n + 1).last() == slice);
        }
        if filter.test_time_stamp_min_max(slice.times.min, slice.times.max) {
            let ghost start = partition_rows(merged@);
            let ghost parts = partition_rows(slice.partitions@);
            let ghost list = slice.partitions@;
            proof {
                assert(parts.take(0) =~= Seq::empty());
            }
            for part in inner: slice.partitions
                invariant
                    inner.seq() == list,
                    parts == partition_rows(list),
                    partition_rows(merged@) == with_partitions(start, parts.take(inner.index())),
            {
                let ghost m = inner.index();
                proof {
                    assert(parts.take(m + 1).drop_last() =~= parts.take(m));
                    assert(parts.take(m + 1).last() == part@);
                }
                absorb(&mut merged, part);
            }
            proof {
                assert(parts.take(parts.len() as int) =~= parts);
            }
        }
    }
    proof {
        assert(all.take(all.len() as int) =~= all);
    }
    let ghost rows = coalesced(all, *filter);
    let ghost sources = merged@;
    let mut out: Vec<BufferChunk<B>> = Vec::new();
    for part in it: merged
        invariant
            it.seq() == sources,
            partition_rows(sources) == rows,
            out.len() == it.index(),
            forall|i: int|
                0 <= i < out.len() ==> is_tail_chunk(
                    #[trigger] out@[i],
                    rows[i],
                    chunk_order,
                    db_id,
                    table_id,
                ),
    {
        proof {
            assert(part@ == rows[it.index() as int]);
        }
        let row_count: u64 = count_rows(&part.batches);
        out.push(
            BufferChunk {
                batches: part.batches,
                row_count,
                times: Some(part.times),
                partition_id: table_partition_id(db_id, table_id),
                chunk_order,
            },
        );
    }
    out
}

/// A chunk time has at most one entry.
pub open spec fn one_per_partition<B>(list: Seq<PartitionRows<B>>) -> bool {
    forall|i: int, j: int| 0 <= i < j < list.len() ==> list[i].chunk_time != list[j].chunk_time
}

/// The rows of all entries together.
pub open spec fn all_rows<B>(list: Seq<PartitionRows<B>>) -> nat
    decreases list.len(),
{
    if list.len() == 0 {
        0
    } else {
        rows_in(list[0].batches) + all_rows(list.skip(1))
    }
}

proof fn rows_in_concat<B>(a: Seq<SizedBatch<B>>, b: Seq<SizedBatch<B>>)
    ensures
        rows_in(a + b) == rows_in(a) + rows_in(b),
    decreases b.len(),
{
    if b.len() == 0 {
        assert(a + b =~= a);
    } else {
        rows_in_concat(a, b.drop_last());
        assert((a + b).drop_last() =~= a + b.drop_last());
    }
}

proof fn with_partition_keeps<B>(list: Seq<PartitionRows<B>>, part: PartitionRows<B>)
    requires
        one_per_partition(list),
    ensures
        one_per_partition(with_partition(list, part)),
        all_rows(with_partition(list, part)) == all_rows(list) + rows_in(part.batches),
        forall|i: int|
            0 <= i < with_partition(list, part).len() ==> (#[trigger] with_partition(
                list,
                part,
            )[i]).chunk_time == part.chunk_time || exists|j: int|
                0 <= j < list.len() && (#[trigger] list[j]).chunk_time == with_partition(
                    list,
                    part,
                )[i].chunk_time,
    decreases list.len(),
{
    let after = with_partition(list, part);
    if part.batches.len() == 0 {
        assert forall|i: int| 0 <= i < after.len() implies (#[trigger] after[i]).chunk_time
            == part.chunk_time || exists|j: int|
            0 <= j < list.len() && (#[trigger] list[j]).chunk_time == after[i].chunk_time by {
            assert(list[i].chunk_time == after[i].chunk_time);
        }
    } else if list.len() == 0 {
        assert(after.skip(1) =~= Seq::empty());
        assert(all_rows(after.skip(1)) == 0);
    } else if list[0].chunk_time == part.chunk_time {
        rows_in_concat(list[0].batches, part.batches);
        assert(after.skip(1) =~= list.skip(1));
        assert forall|i: int| 0 <= i < after.len() implies (#[trigger] after[i]).chunk_time
            == list[i].chunk_time by {}
        assert forall|i: int| 0 <= i < after.len() implies (#[trigger] after[i]).chunk_time
            == part.chunk_time || exists|j: int|
            0 <= j < list.len() && (#[trigger] list[j]).chunk_time == after[i].chunk_time by {
            assert(list[i].chunk_time == after[i].chunk_time);
        }
    } else {
        let rest = list.skip(1);
        assert forall|i: int, j: int| 0 <= i < j < rest.len() implies rest[i].chunk_time
            != rest[j].chunk_time by {
            assert(rest[i] == list[i + 1] && rest[j] == list[j + 1]);
        }
        with_partition_keeps(rest, part);
        let tail = with_partition(rest, part);
        assert(after.skip(1) =~= tail);
        assert forall|i: int| 0 <= i < after.len() implies (#[trigger] after[i]).chunk_time
            == part.chunk_time || exists|j: int|
            0 <= j < list.len() && (#[trigger] list[j]).chunk_time == after[i].chunk_time by {
            if i == 0 {
                assert(list[0].chunk_time == after[0].chunk_time);
            } else {
                assert(after[i] == tail[i - 1]);
                if tail[i - 1].chunk_time != part.chunk_time {
                    let j = choose|j: int|
                        0 <= j < rest.len() && (#[trigger] rest[j]).chunk_time
                            == tail[i - 1].chunk_time;
                    assert(list[j + 1].chunk_time == after[i].chunk_time);
                }
            }
        }
        assert forall|i: int, j: int| 0 <= i < j < after.len() implies after[i].chunk_time
            != after[j].chunk_time by {
            assert(after[j] == tail[j - 1]);
            if i > 0 {
                assert(after[i] == tail[i - 1]);
            } else {
                if tail[j - 1].chunk_time != part.chunk_time {
                    let k = choose|k: int|
                        0 <= k < rest.len() && (#[trigger] rest[k]).chunk_time
                            == tail[j - 1].chunk_time;
                    assert(list[0].chunk_time != list[k + 1].chunk_time);
                }
            }
        }
    }
}

proof fn with_partitions_keeps<B>(list: Seq<PartitionRows<B>>, parts: Seq<PartitionRows<B>>)
    requires
        one_per_partition(list),
    ensures
        one_per_partition(with_partitions(list, parts)),
    decreases parts.len(),
{
    if parts.len() > 0 {
        with_partitions_keeps(list, parts.drop_last());
        with_partition_keeps(with_partitions(list, parts.drop_last()), parts.last());
    }
}

/// Coalescing leaves one chunk for each partition.
pub proof fn one_chunk_per_partition<B>(slices: Seq<TailSlice<B>>, filter: ChunkFilter)
    ensures
        one_per_partition(coalesced(slices, filter)),
    decreases slices.len(),
{
    if slices.len() > 0 {
        one_chunk_per_partition(slices.drop_last(), filter);
        with_partitions_keeps(
            coalesced(slices.drop_last(), filter),
            partition_rows(slices.last().partitions@),
        );
    }
}

/// The rows of the partitions together, in the order given.
pub open spec fn rows_of_parts<B>(parts: Seq<PartitionRows<B>>) -> nat
    decreases parts.len(),
{
    if parts.len() == 0 {
        0
    } else {
        rows_of_parts(parts.drop_last()) + rows_in(parts.last().batches)
    }
}

/// The rows of the slices that can matter to a query.
pub open spec fn rows_of_slices<B>(slices: Seq<TailSlice<B>>, filter: ChunkFilter) -> nat
    decreases slices.len(),
{
    if slices.len() == 0 {
        0
    } else {
        let before = rows_of_slices(slices.drop_last(), filter);
        let slice = slices.last();
        if filter.admits(slice.times.min, slice.times.max) {
            before + rows_of_parts(partition_rows(slice.partitions@))
        } else {
            before
        }
    }
}

proof fn with_partitions_rows<B>(list: Seq<PartitionRows<B>>, parts: Seq<PartitionRows<B>>)
    requires
        one_per_partition(list),
    ensures
        all_rows(with_partitions(list, parts)) == all_rows(list) + rows_of_parts(parts),
    decreases parts.len(),
{
    if parts.len() > 0 {
        with_partitions_rows(list, parts.drop_last());
        with_partitions_keeps(list, parts.drop_last());
        with_partition_keeps(with_partitions(list, parts.drop_last()), parts.last());
    }
}

/// Coalescing keeps every row that can matter to the query.
pub proof fn coalescing_keeps_rows<B>(slices: Seq<TailSlice<B>>, filter: ChunkFilter)
    ensures
        all_rows(coalesced(slices, filter)) == rows_of_slices(slices, filter),
    decreases slices.len(),
{
    if slices.len() > 0 {
        coalescing_keeps_rows(slices.drop_last(), filter);
        one_chunk_per_partition(slices.drop_last(), filter);
        with_partitions_rows(
            coalesced(slices.drop_last(), filter),
            partition_rows(slices.last().partitions@),
        );
    }
}

/// A time that lies in either range lies in the union, and the ends of the union are ends of
/// the two.
pub proof fn union_covers_both(a: TimestampMinMax, b: TimestampMinMax)
    ensures
        a.spanning(b).min <= a.min,
        a.spanning(b).min <= b.min,
        a.spanning(b).max >= a.max,
        a.spanning(b).max >= b.max,
        a.spanning(b).min == a.min || a.spanning(b).min == b.min,
        a.spanning(b).max == a.max || a.spanning(b).max == b.max,
{
}

/// The rows of batches that are put behind one another add up; a batch has its own rows.
pub proof fn batch_rows_add_up<B>(
    a: Seq<SizedBatch<B>>,
    b: Seq<SizedBatch<B>>,
    one: SizedBatch<B>,
)
    ensures
        rows_in(a + b) == rows_in(a) + rows_in(b),
        rows_in(seq![one]) == one.num_rows,
{
    rows_in_concat(a, b);
    let single = seq![one];
    assert(single.drop_last() =~= Seq::empty());
    assert(rows_in(single.drop_last()) == 0);
}

/// The partitions of the slices that meet the filter, in the order in which they were written.
pub open spec fn parts_seen<B>(slices: Seq<TailSlice<B>>, filter: ChunkFilter) -> Seq<
    PartitionRows<B>,
>
    decreases slices.len(),
{
    if slices.len() == 0 {
        Seq::empty()
    } else {
        let before = parts_seen(slices.drop_last(), filter);
        let slice = slices.last();
        if filter.admits(slice.times.min, slice.times.max) {
            before + partition_rows(slice.partitions@)
        } else {
            before
        }
    }
}

/// The batches of one partition, in the order in which they were written.
pub open spec fn written_to<B>(parts: Seq<PartitionRows<B>>, chunk_time: i64) -> Seq<SizedBatch<B>>
    decreases parts.len(),
{
    if parts.len() == 0 {
        Seq::empty()
    } else {
        let before = written_to(parts.drop_last(), chunk_time);
        if parts.last().chunk_time == chunk_time {
            before + parts.last().batches
        } else {
            before
        }
    }
}

/// The chunk holds the partition: all that was written to it, in order, and times that cover
/// those of each part, both of them the times of a part.
pub open spec fn holds_partition<B>(chunk: PartitionRows<B>, parts: Seq<PartitionRows<B>>) -> bool {
    &&& chunk.batches.len() > 0
    &&& chunk.batches == written_to(parts, chunk.chunk_time)
    &&& forall|i: int|
        0 <= i < parts.len() && is_part_of(#[trigger] parts[i], chunk.chunk_time)
            ==> chunk.times.min <= parts[i].times.min && parts[i].times.max <= chunk.times.max
    &&& exists|i: int|
        0 <= i < parts.len() && is_part_of(#[trigger] parts[i], chunk.chunk_time)
            && parts[i].times.min == chunk.times.min
    &&& exists|i: int|
        0 <= i < parts.len() && is_part_of(#[trigger] parts[i], chunk.chunk_time)
            && parts[i].times.max == chunk.times.max
}

/// The part has rows of this partition.
pub open spec fn is_part_of<B>(part: PartitionRows<B>, chunk_time: i64) -> bool {
    part.chunk_time == chunk_time && part.batches.len() > 0
}

/// Each chunk holds its partition, there is one for every partition that has rows, and no two
/// are of the same.
pub open spec fn holds_partitions<B>(
    chunks: Seq<PartitionRows<B>>,
    parts: Seq<PartitionRows<B>>,
) -> bool {
    &&& forall|n: int| 0 <= n < chunks.len() ==> holds_partition(#[trigger] chunks[n], parts)
    &&& forall|i: int|
        0 <= i < parts.len() && (#[trigger] parts[i]).batches.len() > 0 ==> has_chunk(
            chunks,
            parts[i].chunk_time,
        )
    &&& one_per_partition(chunks)
}

/// There is a chunk of this partition.
pub open spec fn has_chunk<B>(chunks: Seq<PartitionRows<B>>, chunk_time: i64) -> bool {
    exists|n: int| 0 <= n < chunks.len() && (#[trigger] chunks[n]).chunk_time == chunk_time
}

proof fn nothing_written_without_parts<B>(parts: Seq<PartitionRows<B>>, chunk_time: i64)
    ensures
        written_to(parts, chunk_time).len() > 0 ==> exists|i: int|
            0 <= i < parts.len() && is_part_of(#[trigger] parts[i], chunk_time),
    decreases parts.len(),
{
    if parts.len() > 0 {
        let rest = parts.drop_last();
        nothing_written_without_parts(rest, chunk_time);
        assert(parts[parts.len() - 1] == parts.last());
        if written_to(rest, chunk_time).len() > 0 {
            let i = choose|i: int|
                0 <= i < rest.len() && is_part_of(#[trigger] rest[i], chunk_time);
            assert(parts[i] == rest[i]);
        } else if written_to(parts, chunk_time).len() > 0 {
            assert(is_part_of(parts[parts.len() - 1], chunk_time));
        }
    }
}

proof fn other_partition_stays<B>(
    chunk: PartitionRows<B>,
    parts: Seq<PartitionRows<B>>,
    part: PartitionRows<B>,
)
    requires
        holds_partition(chunk, parts),
        part.chunk_time != chunk.chunk_time || part.batches.len() == 0,
    ensures
        holds_partition(chunk, parts.push(part)),
{
    let all = parts.push(part);
    let t = chunk.chunk_time;
    assert(all.drop_last() =~= parts);
    assert(chunk.batches + Seq::<SizedBatch<B>>::empty() =~= chunk.batches);
    assert(part.batches.len() == 0 ==> part.batches =~= Seq::empty());
    assert forall|i: int| 0 <= i < all.len() && is_part_of(#[trigger] all[i], t) implies
        chunk.times.min <= all[i].times.min && all[i].times.max <= chunk.times.max by {
        assert(i < parts.len());
        assert(is_part_of(parts[i], t));
    }
    let low = choose|i: int|
        0 <= i < parts.len() && is_part_of(#[trigger] parts[i], t) && parts[i].times.min
            == chunk.times.min;
    let high = choose|i: int|
        0 <= i < parts.len() && is_part_of(#[trigger] parts[i], t) && parts[i].times.max
            == chunk.times.max;
    assert(is_part_of(all[low], t) && all[low].times.min == chunk.times.min);
    assert(is_part_of(all[high], t) && all[high].times.max == chunk.times.max);
}

proof fn own_partition_grows<B>(
    chunk: PartitionRows<B>,
    parts: Seq<PartitionRows<B>>,
    part: PartitionRows<B>,
)
    requires
        holds_partition(chunk, parts),
        part.chunk_time == chunk.chunk_time,
        part.batches.len() > 0,
    ensures
        holds_partition(
            PartitionRows {
                chunk_time: part.chunk_time,
                times: chunk.times.spanning(part.times),
                batches: chunk.batches + part.batches,
            },
            parts.push(part),
        ),
{
    let all = parts.push(part);
    let t = chunk.chunk_time;
    let times = chunk.times.spanning(part.times);
    let n = parts.len() as int;
    assert(all.drop_last() =~= parts);
    union_covers_both(chunk.times, part.times);
    assert forall|i: int| 0 <= i < all.len() && is_part_of(#[trigger] all[i], t) implies times.min
        <= all[i].times.min && all[i].times.max <= times.max by {
        if i < n {
            assert(is_part_of(parts[i], t));
        }
    }
    let low = choose|i: int|
        0 <= i < parts.len() && is_part_of(#[trigger] parts[i], t) && parts[i].times.min
            == chunk.times.min;
    let high = choose|i: int|
        0 <= i < parts.len() && is_part_of(#[trigger] parts[i], t) && parts[i].times.max
            == chunk.times.max;
    assert(is_part_of(all[low], t) && is_part_of(all[high], t) && is_part_of(all[n], t));
    assert(times.min == all[low].times.min || times.min == all[n].times.min);
    assert(times.max == all[high].times.max || times.max == all[n].times.max);
}

proof fn new_partition_starts<B>(parts: Seq<PartitionRows<B>>, part: PartitionRows<B>)
    requires
        part.batches.len() > 0,
        written_to(parts, part.chunk_time).len() == 0,
        forall|i: int| 0 <= i < parts.len() ==> !is_part_of(#[trigger] parts[i], part.chunk_time),
    ensures
        holds_partition(part, parts.push(part)),
{
    let all = parts.push(part);
    let n = parts.len() as int;
    assert(all.drop_last() =~= parts);
    assert(written_to(parts, part.chunk_time) + part.batches =~= part.batches);
    assert forall|i: int| 0 <= i < all.len() && is_part_of(
        #[trigger] all[i],
        part.chunk_time,
    ) implies part.times.min <= all[i].times.min && all[i].times.max <= part.times.max by {
        if i < n {
            assert(is_part_of(parts[i], part.chunk_time));
        }
    }
    assert(is_part_of(all[n], part.chunk_time));
}

proof fn with_partition_holds<B>(
    list: Seq<PartitionRows<B>>,
    parts: Seq<PartitionRows<B>>,
    part: PartitionRows<B>,
)
    requires
        holds_partitions(list, parts),
    ensures
        holds_partitions(with_partition(list, part), parts.push(part)),
{
    let after = with_partition(list, part);
    let all = parts.push(part);
    with_partition_keeps(list, part);
    if part.batches.len() == 0 {
        assert forall|n: int| 0 <= n < after.len() implies holds_partition(
            #[trigger] after[n],
            all,
        ) by {
            other_partition_stays(list[n], parts, part);
        }
        assert forall|i: int| 0 <= i < all.len() && (#[trigger] all[i]).batches.len()
            > 0 implies has_chunk(after, all[i].chunk_time) by {
            assert(parts[i] == all[i]);
        }
    } else if has_chunk(list, part.chunk_time) {
        let at = choose|n: int|
            0 <= n < list.len() && (#[trigger] list[n]).chunk_time == part.chunk_time;
        assert forall|j: int| 0 <= j < at implies (#[trigger] list[j]).chunk_time
            != part.chunk_time by {
            assert(list[j].chunk_time != list[at].chunk_time);
        }
        with_partition_at(list, part, at);
        assert forall|n: int| 0 <= n < after.len() implies holds_partition(
            #[trigger] after[n],
            all,
        ) by {
            if n == at {
                own_partition_grows(list[at], parts, part);
            } else {
                assert(list[n].chunk_time != list[at].chunk_time);
                other_partition_stays(list[n], parts, part);
            }
        }
        assert forall|i: int| 0 <= i < all.len() && (#[trigger] all[i]).batches.len()
            > 0 implies has_chunk(after, all[i].chunk_time) by {
            if i < parts.len() {
                assert(parts[i] == all[i]);
                let n = choose|n: int|
                    0 <= n < list.len() && (#[trigger] list[n]).chunk_time == all[i].chunk_time;
                assert(after[n].chunk_time == all[i].chunk_time);
            } else {
                assert(after[at].chunk_time == all[i].chunk_time);
            }
        }
    } else {
        assert forall|j: int| 0 <= j < list.len() implies (#[trigger] list[j]).chunk_time
            != part.chunk_time by {}
        with_partition_absent(list, part);
        assert forall|i: int| 0 <= i < parts.len() implies !is_part_of(
            #[trigger] parts[i],
            part.chunk_time,
        ) by {}
        nothing_written_without_parts(parts, part.chunk_time);
        assert forall|n: int| 0 <= n < after.len() implies holds_partition(
            #[trigger] after[n],
            all,
        ) by {
            if n < list.len() {
                other_partition_stays(list[n], parts, part);
            } else {
                new_partition_starts(parts, part);
            }
        }
        assert forall|i: int| 0 <= i < all.len() && (#[trigger] all[i]).batches.len()
            > 0 implies has_chunk(after, all[i].chunk_time) by {
            if i < parts.len() {
                assert(parts[i] == all[i]);
                let n = choose|n: int|
                    0 <= n < list.len() && (#[trigger] list[n]).chunk_time == all[i].chunk_time;
                assert(after[n].chunk_time == all[i].chunk_time);
            } else {
                assert(after[list.len() as int].chunk_time == all[i].chunk_time);
            }
        }
    }
}

proof fn with_partitions_hold<B>(
    list: Seq<PartitionRows<B>>,
    seen: Seq<PartitionRows<B>>,
    parts: Seq<PartitionRows<B>>,
)
    requires
        holds_partitions(list, seen),
    ensures
        holds_partitions(with_partitions(list, parts), seen + parts),
    decreases parts.len(),
{
    if parts.len() == 0 {
        assert(seen + parts =~= seen);
    } else {
        let rest = parts.drop_last();
        with_partitions_hold(list, seen, rest);
        with_partition_holds(with_partitions(list, rest), seen + rest, parts.last());
        assert((seen + rest).push(parts.last()) =~= seen + parts);
    }
}

/// The chunks of the log tails hold what was written: one chunk for each partition that has
/// rows in a log file that meets the filter, with all of the batches, the newer behind the
/// older, and with times that cover those of every part.
pub proof fn tail_chunks_hold_what_was_written<B>(slices: Seq<TailSlice<B>>, filter: ChunkFilter)
    ensures
        holds_partitions(coalesced(slices, filter), parts_seen(slices, filter)),
    decreases slices.len(),
{
    if slices.len() > 0 {
        let rest = slices.drop_last();
        tail_chunks_hold_what_was_written(rest, filter);
        with_partitions_hold(
            coalesced(rest, filter),
            parts_seen(rest, filter),
            partition_rows(slices.last().partitions@),
        );
    }
}

/// What was seen of the log files is what was written to those that meet the filter: each part
/// of each of them.
pub proof fn parts_are_seen<B>(slices: Seq<TailSlice<B>>, filter: ChunkFilter)
    ensures
        forall|s: int, i: int|
            #![trigger slices[s].partitions@[i]]
            0 <= s < slices.len() && 0 <= i < slices[s].partitions@.len() && filter.admits(
                slices[s].times.min,
                slices[s].times.max,
            ) ==> parts_seen(slices, filter).contains(slices[s].partitions@[i]@),
    decreases slices.len(),
{
    if slices.len() > 0 {
        let rest = slices.drop_last();
        let all = parts_seen(slices, filter);
        let before = parts_seen(rest, filter);
        parts_are_seen(rest, filter);
        assert forall|s: int, i: int|
            #![trigger slices[s].partitions@[i]]
            0 <= s < slices.len() && 0 <= i < slices[s].partitions@.len() && filter.admits(
                slices[s].times.min,
                slices[s].times.max,
            ) implies all.contains(slices[s].partitions@[i]@) by {
            if s < rest.len() {
                assert(rest[s] == slices[s]);
                assert(before.contains(rest[s].partitions@[i]@));
                let own = slices[s].partitions@[i]@;
                let n = choose|n: int| 0 <= n < before.len() && before[n] == own;
                assert(all[n] == before[n]);
            } else {
                let own = partition_rows(slices[s].partitions@);
                assert(own[i] == slices[s].partitions@[i]@);
                assert(all[before.len() + i] == own[i]);
            }
        }
    }
}

/// A chunk of the tail is its partition: the same batches, their rows, their times, in the
/// partition of its table, at the order that was asked for.
pub proof fn tail_chunk_is_its_partition<B>(
    chunk: BufferChunk<B>,
    rows: PartitionRows<B>,
    chunk_order: i64,
    db_id: DbId,
    table_id: TableId,
)
    requires
        is_tail_chunk(chunk, rows, chunk_order, db_id, table_id),
    ensures
        chunk.batches@ == rows.batches,
        rows_in(rows.batches) <= u64::MAX ==> chunk.row_count == rows_in(rows.batches),
        chunk.times is Some,
        chunk.times->0.min == rows.times.min,
        chunk.times->0.max == rows.times.max,
        chunk.chunk_order == chunk_order,
        chunk.partition_id.table == 0,
        chunk.partition_id.key@ == partition_key(db_id, table_id),
{
}

} // verus!

//! What the operations on the tracked files are for, in terms of single files and paths.

use vstd::prelude::*;

use crate::chunk::file_sequence;
use crate::collections::{FileMap, TombstoneMap};
use crate::files::{
    entries, has_path, with_file, ChunkFilter, DbId, Manifest, ParquetFile,
    PersistedSnapshotCheckpoint, TableEntry, TableId,
};
use crate::fold::{
    accepted, clamped, files_of, folded, total_bytes, total_rows, with_added, with_buried,
    with_removed, LiveFiles,
};
use crate::fold_laws::{
    buried_paths, has_path_push, has_path_without, is_listed, is_listed_last, listed_paths,
    removal_is_by_path,
};
use crate::persisted_files::{
    admitted, after_add, after_deletion, after_fold, after_remove, checkpoint_count,
    checkpoint_files, condemned_paths, from_checkpoint, grouped, holds, in_month_order,
    is_condemned, is_deletion_queue, is_earliest, is_expired, is_merge_chain, is_newest_first,
    is_queued, less, needed, nothing_tracked, plus, with_gone, within_bound, FileState, Queued,
    RetentionCutoff, MAX_EVICTION_TOMBSTONES,
};
use crate::persisted_files_laws::newest_first_is_sorted;
use crate::text::{
    all_digits, decimal_text, decimal_text_denotes, decimal_value, ends_with, is_digit,
    last_segment, padded_text, padded_text_denotes, parse_unsigned, segments, split_on,
    split_on_absent, split_on_join, text_lt,
};
use crate::tombstone::{gen1_path, is_padded_number, tombstone_for, TombstoneKey};

verus! {

/// Counters are exact as long as they fit, and stay at the ends where they do not.
pub proof fn counters_are_exact_while_they_fit(a: u64, b: u64, n: nat)
    ensures
        n <= u64::MAX ==> clamped(n) == n,
        n > u64::MAX ==> clamped(n) == u64::MAX,
        a + b <= u64::MAX ==> plus(a, b) == a + b,
        a + b > u64::MAX ==> plus(a, b) == u64::MAX,
        b <= a ==> less(a, b) == a - b,
        b > a ==> less(a, b) == 0,
{
}

/// The bytes and the rows of files add up, and one file has its own.
pub proof fn totals_add_up(a: Seq<ParquetFile>, b: Seq<ParquetFile>, f: ParquetFile)
    ensures
        total_bytes(a + b) == total_bytes(a) + total_bytes(b),
        total_rows(a + b) == total_rows(a) + total_rows(b),
        total_bytes(seq![f]) == f.size_bytes,
        total_rows(seq![f]) == f.row_count,
    decreases b.len(),
{
    let one = seq![f];
    assert(one.drop_last() =~= Seq::empty());
    assert(total_bytes(one.drop_last()) == 0 && total_rows(one.drop_last()) == 0);
    if b.len() == 0 {
        assert(a + b =~= a);
    } else {
        totals_add_up(a, b.drop_last(), f);
        assert((a + b).drop_last() =~= a + b.drop_last());
    }
}

proof fn filtered_contains(
    files: Seq<ParquetFile>,
    keep: spec_fn(ParquetFile) -> bool,
    f: ParquetFile,
)
    ensures
        files.filter(keep).contains(f) == (files.contains(f) && keep(f)),
    decreases files.len(),
{
    reveal(Seq::filter);
    if files.len() > 0 {
        let rest = files.drop_last();
        let kept = files.filter(keep);
        let before = rest.filter(keep);
        filtered_contains(rest, keep, f);
        if before.contains(f) {
            let i = choose|i: int| 0 <= i < before.len() && before[i] == f;
            assert(kept[i] == f);
        }
        if rest.contains(f) {
            let i = choose|i: int| 0 <= i < rest.len() && rest[i] == f;
            assert(files[i] == f);
        }
        if f == files.last() {
            assert(files[files.len() - 1] == f);
            if keep(f) {
                assert(kept[kept.len() - 1] == f);
            }
        }
        if files.contains(f) && f != files.last() {
            let i = choose|i: int| 0 <= i < files.len() && files[i] == f;
            assert(rest[i] == f);
        }
        if kept.contains(f) && !before.contains(f) {
            let i = choose|i: int| 0 <= i < kept.len() && kept[i] == f;
            if i < before.len() {
                assert(before[i] == f);
            }
        }
    } else {
        assert(files.filter(keep).len() == 0);
    }
}

/// A query gets every file of the table that holds a time that it asks for, and, as long as it
/// asks for any time at all, no file whose times are known not to be asked for; the newest come
/// first.
pub proof fn query_gets_the_files_it_needs(
    files: Seq<ParquetFile>,
    filter: ChunkFilter,
    r: Seq<ParquetFile>,
)
    requires
        is_newest_first(r, admitted(files, filter)),
    ensures
        forall|i: int, x: int|
            #![trigger files[i], filter.asks_for(x)]
            0 <= i < files.len() && files[i].min_time <= x <= files[i].max_time && filter.asks_for(
                x,
            ) ==> r.contains(files[i]),
        forall|n: int| 0 <= n < r.len() ==> files.contains(#[trigger] r[n]),
        (exists|y: int| #[trigger] filter.asks_for(y)) ==> forall|n: int|
            0 <= n < r.len() && (#[trigger] r[n]).min_time <= r[n].max_time ==> exists|x: int|
                r[n].min_time <= x <= r[n].max_time && #[trigger] filter.asks_for(x),
        forall|n: int, m: int| 0 <= n < m < r.len() ==> r[n].min_time >= r[m].min_time,
{
    let chosen = admitted(files, filter);
    let keep = |f: ParquetFile| filter.admits(f.min_time, f.max_time);
    newest_first_is_sorted(r, chosen);
    assert forall|f: ParquetFile| r.contains(f) == chosen.contains(f) by {
        r.to_multiset_ensures();
        chosen.to_multiset_ensures();
        assert(r.to_multiset().count(f) == chosen.to_multiset().count(f));
    }
    assert forall|i: int, x: int|
        #![trigger files[i], filter.asks_for(x)]
        0 <= i < files.len() && files[i].min_time <= x <= files[i].max_time && filter.asks_for(
            x,
        ) implies r.contains(files[i]) by {
        crate::files::no_row_is_lost_to_the_filter(filter, files[i].min_time, files[i].max_time);
        filtered_contains(files, keep, files[i]);
        assert(files.contains(files[i]));
    }
    assert forall|n: int| 0 <= n < r.len() implies files.contains(#[trigger] r[n])
        && filter.admits(r[n].min_time, r[n].max_time) by {
        assert(r.contains(r[n]));
        filtered_contains(files, keep, r[n]);
    }
    if exists|y: int| #[trigger] filter.asks_for(y) {
        assert forall|n: int|
            0 <= n < r.len() && (#[trigger] r[n]).min_time <= r[n].max_time implies exists|x: int|
            r[n].min_time <= x <= r[n].max_time && #[trigger] filter.asks_for(x) by {
            crate::files::no_row_is_lost_to_the_filter(filter, r[n].min_time, r[n].max_time);
        }
    }
}

/// The file has to go from the table: the database or the table is marked for deletion, or all
/// of the file's times lie before a cutoff of the table.
pub open spec fn has_to_go(
    t: FileState,
    cutoffs: Seq<RetentionCutoff>,
    key: (DbId, TableId),
    f: ParquetFile,
) -> bool {
    ||| t.marks.contains((key.0, None))
    ||| t.marks.contains((key.0, Some(key.1)))
    ||| exists|i: int|
        0 <= i < cutoffs.len() && (#[trigger] cutoffs[i]).db_id == key.0 && cutoffs[i].table_id
            == key.1 && cutoffs[i].cutoff > f.max_time
}

/// A deletion pass takes out every file that has to go, and what shares its path; every other
/// file stays where it is; and what is taken out is handed back, each path once, by table.
pub proof fn deletion_takes_what_has_to_go(
    t: FileState,
    cutoffs: Seq<RetentionCutoff>,
    queue: Seq<Queued>,
    key: (DbId, TableId),
    f: ParquetFile,
)
    requires
        is_deletion_queue(t, cutoffs, queue),
        files_of(t.files, key).contains(f),
    ensures
        has_to_go(t, cutoffs, key, f) ==> !has_path(
            files_of(after_deletion(t, cutoffs, queue).files, key),
            f.path@,
        ) && exists|k: (DbId, TableId)| #[trigger] is_listed(grouped(queue), k, f.path@),
        !files_of(after_deletion(t, cutoffs, queue).files, key).contains(f) ==> exists|
            k: (DbId, TableId),
            g: ParquetFile,
        | #[trigger]
            files_of(t.files, k).contains(g) && g.path@ == f.path@ && has_to_go(t, cutoffs, k, g),
{
    let after = after_deletion(t, cutoffs, queue);
    let gone = condemned_paths(t, cutoffs);
    let i = choose|i: int| 0 <= i < t.files[key].len() && t.files[key][i] == f;
    assert(holds(t, key, i));
    if has_to_go(t, cutoffs, key, f) {
        assert(is_condemned(t, cutoffs, key, f)) by {
            if !t.marked(key) {
                let c = choose|c: int|
                    0 <= c < cutoffs.len() && (#[trigger] cutoffs[c]).db_id == key.0
                        && cutoffs[c].table_id == key.1 && cutoffs[c].cutoff > f.max_time;
                assert(is_expired(cutoffs, key, f));
            }
        }
        assert(gone.contains(f.path@));
        assert(is_queued(queue, f.path@));
        has_path_without(t.files[key], gone, f.path@);
        let n = choose|n: int| 0 <= n < queue.len() && (#[trigger] queue[n]).file.path@ == f.path@;
        grouped_lists(queue, queue[n].key, f.path@);
        assert(is_listed(grouped(queue), queue[n].key, f.path@));
    }
    if !files_of(after.files, key).contains(f) {
        assert(queue.len() > 0);
        filtered_contains(t.files[key], |x: ParquetFile| !gone.contains(x.path@), f);
        assert(gone.contains(f.path@));
        let (k, j) = choose|k: (DbId, TableId), j: int| #[trigger]
            holds(t, k, j) && t.files[k][j].path@ == f.path@ && is_condemned(
                t,
                cutoffs,
                k,
                t.files[k][j],
            );
        let g = t.files[k][j];
        assert(files_of(t.files, k).contains(g));
        assert(has_to_go(t, cutoffs, k, g)) by {
            if !t.marked(k) {
                assert(is_expired(cutoffs, k, g));
                let c = choose|c: int|
                    0 <= c < cutoffs.len() && (#[trigger] cutoffs[c]).db_id == k.0
                        && cutoffs[c].table_id == k.1 && g.max_time < cutoffs[c].cutoff;
                assert(cutoffs[c].cutoff > g.max_time);
            }
        }
    }
}

/// A manifest lists a file that is put into it, under its table, and what it listed before.
pub proof fn listed_file_is_listed(
    list: Seq<TableEntry>,
    key: (DbId, TableId),
    file: ParquetFile,
    k: (DbId, TableId),
    p: Seq<char>,
)
    ensures
        is_listed(with_file(list, key, file), k, p) == (is_listed(list, k, p) || (k == key
            && file.path@ == p)),
    decreases list.len(),
{
    let after = with_file(list, key, file);
    if list.len() == 0 {
        has_path_push(Seq::empty(), file, p);
        assert(Seq::<ParquetFile>::empty().push(file) =~= seq![file]);
        assert(after[0] == TableEntry { key, files: seq![file] });
        if k == key && file.path@ == p {
            assert(has_path(after[0].files, p));
        }
        if is_listed(after, k, p) {
            let i = choose|i: int|
                0 <= i < after.len() && (#[trigger] after[i]).key == k && has_path(
                    after[i].files,
                    p,
                );
            assert(i == 0);
        }
    } else {
        let rest = list.skip(1);
        listed_first(list, k, p);
        listed_first(after, k, p);
        if list[0].key == key {
            assert(after.skip(1) =~= rest);
            has_path_push(list[0].files, file, p);
        } else {
            listed_file_is_listed(rest, key, file, k, p);
            assert(after.skip(1) =~= with_file(rest, key, file));
            assert(after[0] == list[0]);
        }
    }
}

proof fn listed_first(list: Seq<TableEntry>, k: (DbId, TableId), p: Seq<char>)
    requires
        list.len() > 0,
    ensures
        is_listed(list, k, p) == ((list[0].key == k && has_path(list[0].files, p)) || is_listed(
            list.skip(1),
            k,
            p,
        )),
{
    let rest = list.skip(1);
    if is_listed(rest, k, p) {
        let i = choose|i: int|
            0 <= i < rest.len() && (#[trigger] rest[i]).key == k && has_path(rest[i].files, p);
        assert(list[i + 1] == rest[i]);
    }
    if is_listed(list, k, p) {
        let i = choose|i: int|
            0 <= i < list.len() && (#[trigger] list[i]).key == k && has_path(list[i].files, p);
        if i > 0 {
            assert(rest[i - 1] == list[i]);
        }
    }
}

/// What a deletion pass hands back is what was queued.
pub proof fn grouped_lists(queue: Seq<Queued>, k: (DbId, TableId), p: Seq<char>)
    ensures
        is_listed(grouped(queue), k, p) <==> exists|n: int|
            0 <= n < queue.len() && (#[trigger] queue[n]).key == k && queue[n].file.path@ == p,
    decreases queue.len(),
{
    if queue.len() > 0 {
        let rest = queue.drop_last();
        grouped_lists(rest, k, p);
        listed_file_is_listed(grouped(rest), queue.last().key, queue.last().file, k, p);
        assert(queue[queue.len() - 1] == queue.last());
        if is_listed(grouped(rest), k, p) {
            let n = choose|n: int|
                0 <= n < rest.len() && (#[trigger] rest[n]).key == k && rest[n].file.path@ == p;
            assert(queue[n] == rest[n]);
        }
        if exists|n: int|
            0 <= n < queue.len() && (#[trigger] queue[n]).key == k && queue[n].file.path@ == p {
            let n = choose|n: int|
                0 <= n < queue.len() && (#[trigger] queue[n]).key == k && queue[n].file.path@ == p;
            if n < rest.len() {
                assert(rest[n] == queue[n]);
            }
        }
    } else {
        assert(!is_listed(grouped(queue), k, p));
    }
}

/// A file that is added is there afterwards, with all that is known of it, behind what was there;
/// nothing else changes but the counters.
pub proof fn added_file_is_there(t: FileState, key: (DbId, TableId), file: ParquetFile)
    ensures
        exists|i: int|
            #![trigger files_of(after_add(t, key, file).files, key)[i]]
            0 <= i < files_of(after_add(t, key, file).files, key).len() && {
                let f = files_of(after_add(t, key, file).files, key)[i];
                f.path@ == file.path@ && f.id == file.id && f.size_bytes == file.size_bytes
                    && f.row_count == file.row_count && f.chunk_time == file.chunk_time
                    && f.min_time == file.min_time && f.max_time == file.max_time
            },
        files_of(after_add(t, key, file).files, key) == files_of(t.files, key) || files_of(
            after_add(t, key, file).files,
            key,
        ) == files_of(t.files, key).push(file),
        forall|k: (DbId, TableId)|
            k != key ==> #[trigger] files_of(after_add(t, key, file).files, k) == files_of(
                t.files,
                k,
            ),
        after_add(t, key, file).tombstones == t.tombstones,
        after_add(t, key, file).marks == t.marks,
        after_add(t, key, file).evictions == t.evictions,
{
    let existing = files_of(t.files, key);
    let after = files_of(after_add(t, key, file).files, key);
    if exists|i: int| 0 <= i < existing.len() && (#[trigger] existing[i]).matches(file) {
        let i = choose|i: int| 0 <= i < existing.len() && (#[trigger] existing[i]).matches(file);
        assert(after[i] == existing[i]);
    } else {
        assert(after[existing.len() as int] == file);
    }
}

/// A removal takes the files with these paths out of the table, and nothing else.
pub proof fn removed_files_are_gone(
    t: FileState,
    key: (DbId, TableId),
    paths: Set<Seq<char>>,
    f: ParquetFile,
)
    ensures
        files_of(after_remove(t, key, paths).files, key).contains(f) == (files_of(
            t.files,
            key,
        ).contains(f) && !paths.contains(f.path@)),
        forall|k: (DbId, TableId)|
            k != key ==> #[trigger] files_of(after_remove(t, key, paths).files, k) == files_of(
                t.files,
                k,
            ),
        after_remove(t, key, paths).tombstones == t.tombstones,
        after_remove(t, key, paths).marks == t.marks,
        after_remove(t, key, paths).evictions == t.evictions,
{
    if t.files.contains_key(key) {
        filtered_contains(t.files[key], |x: ParquetFile| !paths.contains(x.path@), f);
    }
}

/// The tombstone of a writer's file is dropped once the writer's mark is at its sequence number
/// or above, that of a compacted file once the compaction mark is at the removing compaction or
/// above, and that of a file known to be gone never; all others are kept as they are.
pub proof fn tombstones_are_dropped_when_reached(
    tombstones: TombstoneMap,
    marks: Map<Seq<char>, u64>,
    mark: Option<Seq<char>>,
    p: Seq<char>,
)
    requires
        tombstones.contains_key(p),
    ensures
        needed(tombstones, marks, mark).contains_key(p) == match tombstones[p] {
            TombstoneKey::WalSeq { node_id, wal_seq } => !(marks.contains_key(node_id) && wal_seq
                <= marks[node_id]),
            TombstoneKey::Compaction { removing_id } => mark is None || text_lt(
                mark->0,
                removing_id,
            ),
            TombstoneKey::ObjectGone => true,
        },
        needed(tombstones, marks, mark).contains_key(p) ==> needed(tombstones, marks, mark)[p]
            == tombstones[p],
        forall|q: Seq<char>| #[trigger]
            needed(tombstones, marks, mark).contains_key(q) ==> tombstones.contains_key(q),
{
}

/// A path that is found missing gets a tombstone, unless it has one already, which it keeps, and
/// no other path does.
pub proof fn missing_paths_are_remembered(t: FileState, paths: Seq<Seq<char>>, p: Seq<char>)
    ensures
        with_gone(t, paths).tombstones.contains_key(p) == (t.tombstones.contains_key(p)
            || paths.contains(p)),
        t.tombstones.contains_key(p) ==> with_gone(t, paths).tombstones[p] == t.tombstones[p],
        !t.tombstones.contains_key(p) && paths.contains(p) ==> with_gone(t, paths).tombstones[p]
            == TombstoneKey::ObjectGone && with_gone(t, paths).evictions.contains(p),
        with_gone(t, paths).evictions.len() >= t.evictions.len(),
        with_gone(t, paths).evictions.take(t.evictions.len() as int) == t.evictions,
        with_gone(t, paths).files == t.files,
    decreases paths.len(),
{
    if paths.len() > 0 {
        let rest = paths.drop_last();
        let before = with_gone(t, rest);
        let after = with_gone(t, paths);
        missing_paths_are_remembered(t, rest, p);
        missing_paths_are_remembered(t, rest, paths.last());
        assert(paths[paths.len() - 1] == paths.last());
        if rest.contains(p) {
            let i = choose|i: int| 0 <= i < rest.len() && rest[i] == p;
            assert(paths[i] == p);
        }
        if paths.contains(p) && !rest.contains(p) {
            let i = choose|i: int| 0 <= i < paths.len() && paths[i] == p;
            if i < rest.len() {
                assert(rest[i] == p);
            }
            assert(p == paths.last());
        }
        if before.evictions.contains(p) {
            let i = choose|i: int| 0 <= i < before.evictions.len() && before.evictions[i] == p;
            assert(after.evictions[i] == p);
        }
        if !before.tombstones.contains_key(paths.last()) {
            assert(after.evictions[before.evictions.len() as int] == paths.last());
            assert(after.evictions.take(t.evictions.len() as int)
                =~= before.evictions.take(t.evictions.len() as int));
        }
    } else {
        assert(t.evictions.take(t.evictions.len() as int) =~= t.evictions);
        assert(!paths.contains(p));
    }
}

/// Of the missing paths the last two hundred thousand are remembered, and the oldest are
/// forgotten first: a path that is not among the oldest keeps its tombstone.
pub proof fn oldest_missing_paths_are_forgotten(t: FileState, p: Seq<char>)
    ensures
        ({
            let over = if t.evictions.len() > 200_000 {
                t.evictions.len() - 200_000
            } else {
                0
            };
            &&& within_bound(t).evictions == t.evictions.skip(over)
            &&& t.tombstones.contains_key(p) && !t.evictions.take(over).contains(p) ==> within_bound(
                t,
            ).tombstones.contains_key(p)
            &&& t.tombstones.contains_key(p) && t.tombstones[p] == TombstoneKey::ObjectGone
                && t.evictions.take(over).contains(p) ==> !within_bound(t).tombstones.contains_key(
                p,
            )
        }),
    decreases t.evictions.len(),
{
    if t.evictions.len() > MAX_EVICTION_TOMBSTONES {
        let oldest = t.evictions[0];
        let gone = t.tombstones.contains_key(oldest) && t.tombstones[oldest]
            == TombstoneKey::ObjectGone;
        let next = FileState {
            tombstones: if gone {
                t.tombstones.remove(oldest)
            } else {
                t.tombstones
            },
            evictions: t.evictions.drop_first(),
            ..t
        };
        oldest_missing_paths_are_forgotten(next, p);
        crate::persisted_files_laws::evictions_stay_bounded(next);
        let over = t.evictions.len() - 200_000;
        let less_over = over - 1;
        assert(next.evictions.skip(less_over) =~= t.evictions.skip(over));
        assert(next.evictions.take(less_over) =~= t.evictions.take(over).skip(1));
        if next.evictions.take(less_over).contains(p) {
            let i = choose|i: int|
                0 <= i < less_over && next.evictions.take(less_over)[i] == p;
            assert(t.evictions.take(over)[i + 1] == p);
        }
        assert(t.evictions.take(over)[0] == oldest);
        if t.evictions.take(over).contains(p) {
            let i = choose|i: int| 0 <= i < over && t.evictions.take(over)[i] == p;
            if i > 0 {
                assert(next.evictions.take(less_over)[i - 1] == p);
            }
        }
    } else {
        assert(t.evictions.skip(0) =~= t.evictions);
        assert(t.evictions.take(0) =~= Seq::empty());
        assert(!t.evictions.take(0).contains(p));
    }
}

/// The path that a writer gives to a file leads back to the writer and the sequence number, with
/// or without the ordinal of a part.
pub proof fn writer_path_reads_back(
    path: Seq<char>,
    node_id: Seq<char>,
    wal_seq: u64,
    ordinal: Option<nat>,
)
    requires
        segments(path).len() == 7,
        forall|i: int| 0 <= i < 7 ==> (#[trigger] segments(path)[i]).len() > 0,
        segments(path)[0] == node_id,
        segments(path)[1] == seq!['d', 'b', 's'],
        segments(path)[6] == padded_text(wal_seq as nat, 10) + (match ordinal {
            Some(o) => seq!['-'] + decimal_text(o),
            None => Seq::empty(),
        }) + seq!['.', 'p', 'a', 'r', 'q', 'u', 'e', 't'],
    ensures
        gen1_path(path) == Some((node_id, wal_seq)),
        forall|source: Option<Seq<char>>| #[trigger]
            tombstone_for(path, source) == Some(TombstoneKey::WalSeq { node_id, wal_seq }),
{
    reveal_strlit(".parquet");
    reveal_strlit("dbs");
    let suffix = seq!['.', 'p', 'a', 'r', 'q', 'u', 'e', 't'];
    assert(".parquet"@ =~= suffix);
    assert("dbs"@ =~= seq!['d', 'b', 's']);
    let digits = padded_text(wal_seq as nat, 10);
    padded_text_denotes(wal_seq as nat, 10);
    let middle = match ordinal {
        Some(o) => seq!['-'] + decimal_text(o),
        None => Seq::<char>::empty(),
    };
    let name = segments(path).last();
    let stem = digits + middle;
    assert(name.take(name.len() - 8) =~= stem);
    assert(name.skip(name.len() - 8) =~= suffix);
    no_dash(digits);
    split_on_absent(digits, '-');
    if let Some(o) = ordinal {
        let tail = decimal_text(o);
        decimal_text_denotes(o);
        no_dash(tail);
        assert(stem =~= digits + seq!['-'] + tail);
        split_on_join(digits, tail, '-');
        assert(split_on(stem, '-') =~= seq![digits, tail]);
    } else {
        assert(stem =~= digits);
    }
    no_needless_zero(wal_seq as nat);
    assert(is_padded_number(digits));
}

proof fn no_dash(digits: Seq<char>)
    requires
        all_digits(digits),
    ensures
        !digits.contains('-'),
{
    if digits.contains('-') {
        let i = choose|i: int| 0 <= i < digits.len() && digits[i] == '-';
        assert(is_digit(digits[i]));
    }
}

proof fn no_needless_zero(n: nat)
    ensures
        decimal_text(n).len() > 1 ==> decimal_text(n)[0] != '0',
        n > 0 ==> decimal_text(n)[0] != '0',
    decreases n,
{
    if n >= 10 {
        no_needless_zero(n / 10);
        decimal_text_denotes(n / 10);
        assert(decimal_text(n)[0] == decimal_text(n / 10)[0]);
    }
}

/// A path is taken for a writer's only if it has the seven segments of one, names the writer
/// first, and has a name of ten digits or more that ends in `.parquet`.
pub proof fn only_writer_paths_are_read(path: Seq<char>)
    requires
        gen1_path(path) is Some,
    ensures
        segments(path).len() == 7,
        forall|i: int| 0 <= i < 7 ==> (#[trigger] segments(path)[i]).len() > 0,
        segments(path)[1] == seq!['d', 'b', 's'],
        match gen1_path(path) {
            Some((node_id, wal_seq)) => {
                &&& node_id == segments(path)[0]
                &&& exists|digits: Seq<char>, rest: Seq<char>|
                    segments(path)[6] == #[trigger] (digits + rest) && digits.len() >= 10
                        && all_digits(digits) && decimal_value(digits) == wal_seq && ends_with(
                        rest,
                        seq!['.', 'p', 'a', 'r', 'q', 'u', 'e', 't'],
                    ) && (rest.len() == 8 || (rest.len() > 9 && rest[0] == '-' && all_digits(
                        rest.subrange(1, rest.len() - 8),
                    )))
            },
            None => false,
        },
{
    reveal_strlit(".parquet");
    reveal_strlit("dbs");
    let suffix = seq!['.', 'p', 'a', 'r', 'q', 'u', 'e', 't'];
    assert(".parquet"@ =~= suffix);
    assert("dbs"@ =~= seq!['d', 'b', 's']);
    let name = segments(path)[6];
    assert(segments(path).last() == name);
    let stem = name.take(name.len() - 8);
    let numbers = split_on(stem, '-');
    let digits = numbers[0];
    pieces_join(stem, '-');
    let rest = name.skip(digits.len() as int);
    assert(name =~= stem + suffix);
    assert(name.take(digits.len() as int) =~= digits) by {
        if numbers.len() == 1 {
            assert(stem =~= digits);
        } else {
            assert(stem =~= digits + seq!['-'] + numbers[1]);
        }
    }
    assert(name =~= digits + rest);
    assert(rest.skip(rest.len() - 8) =~= suffix);
    if numbers.len() == 2 {
        assert(rest[0] == stem[digits.len() as int]);
        assert(rest.subrange(1, rest.len() - 8) =~= numbers[1]);
    }
}

/// A string is its pieces, with the separator between.
proof fn pieces_join(s: Seq<char>, sep: char)
    ensures
        split_on(s, sep).len() >= 1,
        split_on(s, sep).len() == 1 ==> s == split_on(s, sep)[0],
        split_on(s, sep).len() == 2 ==> s == split_on(s, sep)[0] + seq![sep] + split_on(s, sep)[1],
    decreases s.len(),
{
    if s.len() > 0 {
        let t = s.drop_last();
        let before = split_on(t, sep);
        pieces_join(t, sep);
        assert(s =~= t.push(s.last()));
        if s.last() == sep {
            if before.len() == 1 {
                assert(s =~= split_on(s, sep)[0] + seq![sep] + split_on(s, sep)[1]);
            }
        } else {
            if before.len() == 1 {
                assert(s =~= split_on(s, sep)[0]);
            } else if before.len() == 2 {
                assert(s =~= split_on(s, sep)[0] + seq![sep] + split_on(s, sep)[1]);
            }
        }
    } else {
        assert(s =~= split_on(s, sep)[0]);
    }
}

/// The removal of any other file leaves a tombstone under the id of the compaction, and none
/// where the compaction is not known.
pub proof fn other_removals_are_kept_by_compaction(path: Seq<char>, id: Seq<char>)
    requires
        gen1_path(path) is None,
    ensures
        tombstone_for(path, Some(id)) == Some(TombstoneKey::Compaction { removing_id: id }),
        tombstone_for(path, None) is None,
{
}

/// Folding in the removal of a file that one table is said to hold: where the table holds it, it
/// gets no tombstone; where it does not, the removal leaves one with the key that belongs to the
/// path. A path that is not removed gets none.
pub proof fn removal_leaves_its_tombstone(
    live: LiveFiles,
    manifest: Manifest,
    source: Option<Seq<char>>,
    key: (DbId, TableId),
    p: Seq<char>,
)
    requires
        !live.tombstones.contains_key(p),
        has_one_entry_each(manifest.removed),
        forall|k: (DbId, TableId)| #[trigger] is_listed(manifest.removed, k, p) ==> k == key,
    ensures
        ({
            let there = has_path(files_of(live.files, key), p) || is_listed(
                manifest.added,
                key,
                p,
            );
            let stones = folded(live, manifest, source).tombstones;
            &&& there || !is_listed(manifest.removed, key, p) ==> !stones.contains_key(p)
            &&& !there && is_listed(manifest.removed, key, p) ==> (stones.contains_key(p)
                <==> tombstone_for(p, source) is Some) && (stones.contains_key(p) ==> stones[p]
                == tombstone_for(p, source)->0)
        }),
{
    let grown = with_added(live.files, manifest.added, live.tombstones.dom());
    crate::fold_laws::adds_are_listed(
        live.files,
        manifest.added,
        live.tombstones.dom(),
        key,
        p,
    );
    burial_of(grown, live.tombstones, manifest.removed, source, key, p);
}

/// The list has no more than one entry for a table.
pub open spec fn has_one_entry_each(list: Seq<TableEntry>) -> bool {
    forall|i: int, j: int| 0 <= i < j < list.len() ==> list[i].key != list[j].key
}

proof fn burial_of(
    files: FileMap,
    tombstones: TombstoneMap,
    removed: Seq<TableEntry>,
    source: Option<Seq<char>>,
    key: (DbId, TableId),
    p: Seq<char>,
)
    requires
        !tombstones.contains_key(p),
        has_one_entry_each(removed),
        forall|k: (DbId, TableId)| #[trigger] is_listed(removed, k, p) ==> k == key,
    ensures
        ({
            let there = has_path(files_of(files, key), p);
            let stones = with_buried(files, tombstones, removed, source);
            &&& there || !is_listed(removed, key, p) ==> !stones.contains_key(p)
            &&& !there && is_listed(removed, key, p) ==> (stones.contains_key(p)
                <==> tombstone_for(p, source) is Some) && (stones.contains_key(p) ==> stones[p]
                == tombstone_for(p, source)->0)
        }),
    decreases removed.len(),
{
    if removed.len() > 0 {
        let rest = removed.drop_last();
        let entry = removed.last();
        let before = with_buried(files, tombstones, rest, source);
        let existing = files_of(with_removed(files, rest), entry.key);
        assert forall|k: (DbId, TableId)| #[trigger] is_listed(rest, k, p) implies k == key by {
            is_listed_last(removed, k, p);
        }
        assert(removed[removed.len() - 1] == entry);
        is_listed_last(removed, key, p);
        is_listed_last(removed, entry.key, p);
        burial_of(files, tombstones, rest, source, key, p);
        buried_paths(before, existing, entry.files, source, p);
        if entry.key == key {
            assert(!is_listed(rest, key, p)) by {
                if is_listed(rest, key, p) {
                    let i = choose|i: int|
                        0 <= i < rest.len() && (#[trigger] rest[i]).key == key && has_path(
                            rest[i].files,
                            p,
                        );
                    assert(removed[i].key != removed[removed.len() - 1].key);
                }
            }
            removal_is_by_path(files, rest, key);
            has_path_without(files_of(files, key), listed_paths(rest, key), p);
        }
    } else {
        assert(!is_listed(removed, key, p));
    }
}

proof fn accepted_are_new(
    existing: Seq<ParquetFile>,
    new: Seq<ParquetFile>,
    suppressed: Set<Seq<char>>,
)
    ensures
        forall|i: int|
            0 <= i < accepted(existing, new, suppressed).len() ==> new.contains(
                #[trigger] accepted(existing, new, suppressed)[i],
            ),
    decreases new.len(),
{
    if new.len() > 0 {
        let rest = new.drop_last();
        accepted_are_new(existing, rest, suppressed);
        let all = accepted(existing, new, suppressed);
        let before = accepted(existing, rest, suppressed);
        assert forall|i: int| 0 <= i < all.len() implies new.contains(#[trigger] all[i]) by {
            if i < before.len() {
                assert(all[i] == before[i]);
                assert(rest.contains(before[i]));
                let n = choose|n: int| 0 <= n < rest.len() && rest[n] == before[i];
                assert(new[n] == all[i]);
            } else {
                assert(new[new.len() - 1] == all[i]);
            }
        }
    }
}

/// The file is one that the list has for the table.
pub open spec fn lists_file(list: Seq<TableEntry>, key: (DbId, TableId), f: ParquetFile) -> bool {
    exists|i: int|
        0 <= i < list.len() && (#[trigger] list[i]).key == key && list[i].files.contains(f)
}

proof fn added_files_are_listed(
    files: FileMap,
    added: Seq<TableEntry>,
    suppressed: Set<Seq<char>>,
    key: (DbId, TableId),
    f: ParquetFile,
)
    requires
        files_of(with_added(files, added, suppressed), key).contains(f),
    ensures
        files_of(files, key).contains(f) || lists_file(added, key, f),
    decreases added.len(),
{
    if added.len() > 0 {
        let rest = added.drop_last();
        let entry = added.last();
        let before = with_added(files, rest, suppressed);
        let existing = files_of(before, entry.key);
        let joins = accepted(existing, entry.files, suppressed);
        assert(added[added.len() - 1] == entry);
        let was = files_of(before, key).contains(f);
        if entry.key == key && !was {
            let i = choose|i: int|
                0 <= i < (existing + joins).len() && (existing + joins)[i] == f;
            if i < existing.len() {
                assert(existing[i] == f);
            }
            accepted_are_new(existing, entry.files, suppressed);
            assert(joins[i - existing.len()] == f);
        } else {
            added_files_are_listed(files, rest, suppressed, key, f);
            if !files_of(files, key).contains(f) {
                let i = choose|i: int|
                    0 <= i < rest.len() && (#[trigger] rest[i]).key == key
                        && rest[i].files.contains(f);
                assert(added[i] == rest[i]);
            }
        }
    }
}

/// Whatever a table holds after a fold it held before or the manifest lists for it: files come
/// into a table with all that the manifest says of them, and into no other table.
pub proof fn folded_files_come_from_somewhere(
    live: LiveFiles,
    manifest: Manifest,
    source: Option<Seq<char>>,
    key: (DbId, TableId),
    f: ParquetFile,
)
    requires
        files_of(folded(live, manifest, source).files, key).contains(f),
    ensures
        files_of(live.files, key).contains(f) || lists_file(manifest.added, key, f),
{
    let stones = live.tombstones.dom();
    let grown = with_added(live.files, manifest.added, stones);
    let gone = listed_paths(manifest.removed, key);
    removal_is_by_path(grown, manifest.removed, key);
    filtered_contains(files_of(grown, key), |x: ParquetFile| !gone.contains(x.path@), f);
    added_files_are_listed(live.files, manifest.added, stones, key, f);
}

/// Every file that a checkpoint lists for a table is tracked in that table, nothing else is, and
/// the counters start from the number of files and from the totals of the checkpoint.
pub proof fn checkpoint_is_taken_over(
    c: PersistedSnapshotCheckpoint,
    key: (DbId, TableId),
    f: ParquetFile,
)
    ensures
        files_of(from_checkpoint(c).files, key).contains(f) == lists_file(
            entries(c.databases@),
            key,
            f,
        ),
        from_checkpoint(c).rows == c.row_count,
        from_checkpoint(c).bytes_added == c.parquet_size_bytes,
        from_checkpoint(c).bytes_removed == 0,
        from_checkpoint(c).tombstones == TombstoneMap::empty(),
        from_checkpoint(c).marks.is_empty(),
        from_checkpoint(c).evictions.len() == 0,
{
    checkpoint_lists(entries(c.databases@), key, f);
}

proof fn checkpoint_lists(list: Seq<TableEntry>, key: (DbId, TableId), f: ParquetFile)
    ensures
        files_of(checkpoint_files(list), key).contains(f) == lists_file(list, key, f),
    decreases list.len(),
{
    if list.len() > 0 {
        let rest = list.drop_last();
        let entry = list.last();
        let before = checkpoint_files(rest);
        checkpoint_lists(rest, key, f);
        assert(list[list.len() - 1] == entry);
        let old_files = files_of(before, entry.key);
        let all = old_files + entry.files;
        if lists_file(rest, key, f) {
            let i = choose|i: int|
                0 <= i < rest.len() && (#[trigger] rest[i]).key == key && rest[i].files.contains(f);
            assert(list[i] == rest[i]);
        }
        if lists_file(list, key, f) && !lists_file(rest, key, f) {
            let i = choose|i: int|
                0 <= i < list.len() && (#[trigger] list[i]).key == key && list[i].files.contains(f);
            if i < rest.len() {
                assert(rest[i] == list[i]);
            }
            assert(entry.key == key && entry.files.contains(f));
        }
        if entry.key == key {
            if old_files.contains(f) {
                let i = choose|i: int| 0 <= i < old_files.len() && old_files[i] == f;
                assert(all[i] == f);
            }
            if entry.files.contains(f) {
                let i = choose|i: int| 0 <= i < entry.files.len() && entry.files[i] == f;
                assert(all[old_files.len() + i] == f);
            }
            if all.contains(f) {
                let i = choose|i: int| 0 <= i < all.len() && all[i] == f;
                if i < old_files.len() {
                    assert(old_files[i] == f);
                } else {
                    assert(entry.files[i - old_files.len()] == f);
                }
            }
        }
    } else {
        assert(files_of(checkpoint_files(list), key).len() == 0);
    }
}

/// The files that checkpoints list are counted one by one.
pub proof fn checkpoint_counts_add_up(a: Seq<TableEntry>, b: Seq<TableEntry>, one: TableEntry)
    ensures
        checkpoint_count(a + b) == checkpoint_count(a) + checkpoint_count(b),
        checkpoint_count(seq![one]) == one.files.len(),
    decreases b.len(),
{
    let single = seq![one];
    assert(single.drop_last() =~= Seq::empty());
    assert(checkpoint_count(single.drop_last()) == 0);
    if b.len() == 0 {
        assert(a + b =~= a);
    } else {
        checkpoint_counts_add_up(a, b.drop_last(), one);
        assert((a + b).drop_last() =~= a + b.drop_last());
    }
}

/// Checkpoints are merged from the earliest month to the latest, none of them left out.
pub proof fn months_are_in_order(
    list: Seq<PersistedSnapshotCheckpoint>,
    sorted: Seq<PersistedSnapshotCheckpoint>,
)
    requires
        in_month_order(list, sorted),
    ensures
        forall|i: int, j: int|
            0 <= i < j < sorted.len() ==> sorted[i].year_month <= sorted[j].year_month,
        forall|c: PersistedSnapshotCheckpoint| list.contains(c) == #[trigger] sorted.contains(c),
    decreases list.len(),
{
    if list.len() > 0 {
        let i = choose|i: int| #[trigger]
            is_earliest(list, i) && sorted[0] == list[i] && in_month_order(
                list.remove(i),
                sorted.skip(1),
            );
        let left = list.remove(i);
        let rest = sorted.skip(1);
        months_are_in_order(left, rest);
        assert forall|n: int| 0 <= n < rest.len() implies sorted[0].year_month
            <= (#[trigger] rest[n]).year_month by {
            assert(rest.contains(rest[n]));
            assert(left.contains(rest[n]));
            let m = choose|m: int| 0 <= m < left.len() && left[m] == rest[n];
            if m < i {
                assert(list[m] == left[m]);
            } else {
                assert(list[m + 1] == left[m]);
            }
        }
        assert forall|a: int, b: int| 0 <= a < b < sorted.len() implies sorted[a].year_month
            <= sorted[b].year_month by {
            assert(sorted[b] == rest[b - 1]);
            if a > 0 {
                assert(sorted[a] == rest[a - 1]);
            }
        }
        assert forall|c: PersistedSnapshotCheckpoint| list.contains(c)
            == #[trigger] sorted.contains(c) by {
            if list.contains(c) {
                let m = choose|m: int| 0 <= m < list.len() && list[m] == c;
                if m == i {
                    assert(sorted[0] == c);
                } else {
                    if m < i {
                        assert(left[m] == c);
                    } else {
                        assert(left[m - 1] == c);
                    }
                    assert(left.contains(c));
                    assert(rest.contains(c));
                    let n = choose|n: int| 0 <= n < rest.len() && rest[n] == c;
                    assert(sorted[n + 1] == c);
                }
            }
            if sorted.contains(c) {
                let n = choose|n: int| 0 <= n < sorted.len() && sorted[n] == c;
                if n > 0 {
                    assert(rest[n - 1] == c);
                    assert(rest.contains(c));
                    let m = choose|m: int| 0 <= m < left.len() && left[m] == c;
                    if m < i {
                        assert(list[m] == c);
                    } else {
                        assert(list[m + 1] == c);
                    }
                }
            }
        }
    } else {
        assert(sorted =~= list);
    }
}

/// The files of a manifest that join a table are those that are not suppressed, whose path the
/// table does not have, and before which the manifest has none with their path.
pub proof fn first_of_a_path_joins(
    existing: Seq<ParquetFile>,
    new: Seq<ParquetFile>,
    suppressed: Set<Seq<char>>,
    i: int,
)
    requires
        0 <= i < new.len(),
        forall|j: int| 0 <= j < i ==> (#[trigger] new[j]).path@ != new[i].path@,
    ensures
        accepted(existing, new, suppressed).contains(new[i]) == (!suppressed.contains(new[i].path@)
            && !has_path(existing, new[i].path@)),
        forall|f: ParquetFile| #[trigger]
            accepted(existing, new, suppressed).contains(f) && f.path@ == new[i].path@ ==> f
                == new[i],
    decreases new.len(),
{
    let rest = new.drop_last();
    let last = new.last();
    let p = new[i].path@;
    let before = accepted(existing, rest, suppressed);
    let all = accepted(existing, new, suppressed);
    joined(existing, before, p);
    joined(existing, before, last.path@);
    if i < rest.len() {
        assert forall|j: int| 0 <= j < i implies (#[trigger] rest[j]).path@ != rest[i].path@ by {
            assert(rest[j] == new[j]);
        }
        assert(rest[i] == new[i]);
        first_of_a_path_joins(existing, rest, suppressed, i);
        if before.contains(new[i]) {
            let n = choose|n: int| 0 <= n < before.len() && before[n] == new[i];
            assert(all[n] == new[i]);
            assert(has_path(before, p));
        }
        assert forall|f: ParquetFile| #[trigger] all.contains(f) && f.path@ == p implies f
            == new[i] by {
            let n = choose|n: int| 0 <= n < all.len() && all[n] == f;
            if n < before.len() {
                assert(before[n] == f);
                assert(before.contains(f));
            } else {
                assert(f == last);
                assert(!suppressed.contains(p) && !has_path(existing + before, p));
                assert(!has_path(existing, p));
                assert(before.contains(new[i]));
            }
        }
        if all.contains(new[i]) {
            let n = choose|n: int| 0 <= n < all.len() && all[n] == new[i];
            if n < before.len() {
                assert(before[n] == new[i]);
            }
        }
    } else {
        accepted_are_new(existing, rest, suppressed);
        assert forall|f: ParquetFile| before.contains(f) implies f.path@ != p by {
            let n = choose|n: int| 0 <= n < before.len() && before[n] == f;
            assert(rest.contains(before[n]));
            let m = choose|m: int| 0 <= m < rest.len() && rest[m] == f;
            assert(new[m] == f);
        }
        assert(!has_path(before, p)) by {
            if has_path(before, p) {
                let n = choose|n: int| 0 <= n < before.len() && (#[trigger] before[n]).path@ == p;
                assert(before.contains(before[n]));
            }
        }
        if all.len() > before.len() {
            assert(all[before.len() as int] == last);
        }
        assert forall|f: ParquetFile| #[trigger] all.contains(f) && f.path@ == p implies f
            == new[i] by {
            let n = choose|n: int| 0 <= n < all.len() && all[n] == f;
            if n < before.len() {
                assert(before[n] == f);
                assert(before.contains(f));
            }
        }
        if all.contains(new[i]) {
            let n = choose|n: int| 0 <= n < all.len() && all[n] == new[i];
            if n < before.len() {
                assert(before[n] == new[i]);
                assert(before.contains(new[i]));
            }
        }
    }
}

proof fn joined(a: Seq<ParquetFile>, b: Seq<ParquetFile>, p: Seq<char>)
    ensures
        has_path(a + b, p) == (has_path(a, p) || has_path(b, p)),
{
    if has_path(a, p) {
        let i = choose|i: int| 0 <= i < a.len() && (#[trigger] a[i]).path@ == p;
        assert((a + b)[i].path@ == p);
    }
    if has_path(b, p) {
        let i = choose|i: int| 0 <= i < b.len() && (#[trigger] b[i]).path@ == p;
        assert((a + b)[a.len() + i].path@ == p);
    }
    if has_path(a + b, p) {
        let i = choose|i: int| 0 <= i < (a + b).len() && (#[trigger] (a + b)[i]).path@ == p;
        if i < a.len() {
            assert(a[i].path@ == p);
        } else {
            assert(b[i - a.len()].path@ == p);
        }
    }
}

/// Nothing is tracked at first.
pub proof fn nothing_is_tracked_at_first(key: (DbId, TableId))
    ensures
        files_of(nothing_tracked().files, key).len() == 0,
        nothing_tracked().count == 0,
        nothing_tracked().rows == 0,
        nothing_tracked().bytes_added == 0,
        nothing_tracked().bytes_removed == 0,
        nothing_tracked().tombstones == TombstoneMap::empty(),
        nothing_tracked().evictions.len() == 0,
        !nothing_tracked().marked(key),
{
}

/// Checkpoints are merged one into the other in their order: each step merges the next into what
/// the earlier ones gave.
pub proof fn checkpoints_are_merged_in_turn<F>(
    merge: F,
    sorted: Seq<PersistedSnapshotCheckpoint>,
    merged: Seq<PersistedSnapshotCheckpoint>,
    i: int,
) where
    F: Fn(PersistedSnapshotCheckpoint, PersistedSnapshotCheckpoint) -> PersistedSnapshotCheckpoint,

    requires
        is_merge_chain(merge, sorted, merged),
        0 < i < sorted.len(),
    ensures
        merged.len() == sorted.len(),
        merged[0] == sorted[0],
        call_ensures(merge, (merged[i - 1], sorted[i]), merged[i]),
{
}

/// A deletion pass that takes anything out clears the marks; one that does not leaves everything
/// as it is. Tombstones are not its business.
pub proof fn deletion_clears_marks(
    t: FileState,
    cutoffs: Seq<RetentionCutoff>,
    queue: Seq<Queued>,
    key: (DbId, TableId),
)
    ensures
        queue.len() == 0 ==> after_deletion(t, cutoffs, queue) == t,
        queue.len() > 0 ==> !after_deletion(t, cutoffs, queue).marked(key),
        after_deletion(t, cutoffs, queue).tombstones == t.tombstones,
        after_deletion(t, cutoffs, queue).evictions == t.evictions,
{
}

/// A fold leaves the marks for deletion and the paths known to be gone as they are.
pub proof fn fold_leaves_marks_alone(t: FileState, manifest: Manifest, source: Option<Seq<char>>)
    ensures
        after_fold(t, manifest, source).marks == t.marks,
        after_fold(t, manifest, source).evictions == t.evictions,
        after_fold(t, manifest, source).files == folded(t.live(), manifest, source).files,
        after_fold(t, manifest, source).tombstones == folded(t.live(), manifest, source).tombstones,
{
}

/// A file has a sequence number only if its name is that number, with or without the ordinal of a
/// part behind it, and ends in `.parquet`.
pub proof fn only_numbered_names_have_a_sequence(path: Seq<char>)
    requires
        file_sequence(path) is Some,
    ensures
        exists|number: Seq<char>, rest: Seq<char>|
            last_segment(path) == #[trigger] (number + rest) && parse_unsigned(number, u64::MAX)
                == file_sequence(path) && ends_with(
                rest,
                seq!['.', 'p', 'a', 'r', 'q', 'u', 'e', 't'],
            ) && (rest.len() == 8 || (rest.len() > 9 && rest[0] == '-' && all_digits(
                rest.subrange(1, rest.len() - 8),
            ))),
{
    reveal_strlit(".parquet");
    let suffix = seq!['.', 'p', 'a', 'r', 'q', 'u', 'e', 't'];
    assert(".parquet"@ =~= suffix);
    let name = last_segment(path);
    let stem = name.take(name.len() - 8);
    let numbers = split_on(stem, '-');
    let number = numbers[0];
    pieces_join(stem, '-');
    let rest = name.skip(number.len() as int);
    assert(name =~= stem + suffix);
    assert(name.take(number.len() as int) =~= number) by {
        if numbers.len() == 1 {
            assert(stem =~= number);
        } else {
            assert(stem =~= number + seq!['-'] + numbers[1]);
        }
    }
    assert(name =~= number + rest);
    assert(rest.skip(rest.len() - 8) =~= suffix);
    if numbers.len() == 2 {
        assert(rest[0] == stem[number.len() as int]);
        assert(rest.subrange(1, rest.len() - 8) =~= numbers[1]);
    }
}

} // verus!

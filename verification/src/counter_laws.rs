//! What holds of the counters of the tracked files: they tell how many files, rows and bytes
//! are live.

use vstd::prelude::*;

use crate::collections::FileMap;
use crate::files::{has_path, path_set, DbId, Manifest, ParquetFile, TableEntry, TableId};
use crate::fold::{
    accepted, files_of, fold_joins, fold_leaves, folded, joining, leaving, total_bytes, total_rows,
    with_added, with_removed, within, without, LiveFiles,
};
use crate::persisted_files::{
    after_add, after_deletion, after_fold, after_remove, all_without, condemned_paths, holds,
    is_deletion_queue, is_queued, nothing_tracked, queued_files, FileState, Queued,
    RetentionCutoff,
};

verus! {

/// The measure of every table together.
pub open spec fn sum_over(files: FileMap, measure: spec_fn(Seq<ParquetFile>) -> nat) -> nat
    decreases files.dom().len(),
    when files.dom().finite()
{
    if files.dom().len() > 0 {
        let k = files.dom().choose();
        measure(files[k]) + sum_over(files.remove(k), measure)
    } else {
        0
    }
}

/// The measure adds up, file by file.
pub open spec fn is_additive(measure: spec_fn(Seq<ParquetFile>) -> nat) -> bool {
    &&& measure(Seq::empty()) == 0
    &&& forall|a: Seq<ParquetFile>, b: Seq<ParquetFile>| #[trigger]
        measure(a + b) == measure(a) + measure(b)
}

proof fn sum_without(files: FileMap, measure: spec_fn(Seq<ParquetFile>) -> nat, k: (DbId, TableId))
    requires
        files.dom().finite(),
        files.contains_key(k),
    ensures
        sum_over(files, measure) == measure(files[k]) + sum_over(files.remove(k), measure),
    decreases files.dom().len(),
{
    let c = files.dom().choose();
    assert(files.dom().contains(c));
    if c != k {
        let x = files.remove(c);
        let y = files.remove(k);
        sum_without(x, measure, k);
        sum_without(y, measure, c);
        assert(x.remove(k) =~= y.remove(c));
    }
}

proof fn sum_with(
    files: FileMap,
    measure: spec_fn(Seq<ParquetFile>) -> nat,
    k: (DbId, TableId),
    list: Seq<ParquetFile>,
)
    requires
        files.dom().finite(),
        is_additive(measure),
    ensures
        files.insert(k, list).dom().finite(),
        sum_over(files.insert(k, list), measure) + measure(files_of(files, k)) == sum_over(
            files,
            measure,
        ) + measure(list),
{
    let after = files.insert(k, list);
    sum_without(after, measure, k);
    if files.contains_key(k) {
        sum_without(files, measure, k);
        assert(after.remove(k) =~= files.remove(k));
    } else {
        assert(after.remove(k) =~= files);
    }
}

proof fn parts_measure(
    files: Seq<ParquetFile>,
    paths: Set<Seq<char>>,
    measure: spec_fn(Seq<ParquetFile>) -> nat,
)
    requires
        is_additive(measure),
    ensures
        measure(without(files, paths)) + measure(within(files, paths)) == measure(files),
    decreases files.len(),
{
    reveal(Seq::filter);
    if files.len() > 0 {
        let rest = files.drop_last();
        let one = seq![files.last()];
        parts_measure(rest, paths, measure);
        assert(rest + one =~= files);
        assert(without(rest, paths) + one =~= without(rest, paths).push(files.last()));
        assert(within(rest, paths) + one =~= within(rest, paths).push(files.last()));
        assert(measure(rest + one) == measure(rest) + measure(one));
        assert(measure(without(rest, paths) + one) == measure(without(rest, paths)) + measure(one));
        assert(measure(within(rest, paths) + one) == measure(within(rest, paths)) + measure(one));
    } else {
        assert(files =~= Seq::empty());
    }
}

proof fn adds_measure(
    files: FileMap,
    added: Seq<TableEntry>,
    suppressed: Set<Seq<char>>,
    measure: spec_fn(Seq<ParquetFile>) -> nat,
)
    requires
        files.dom().finite(),
        is_additive(measure),
    ensures
        with_added(files, added, suppressed).dom().finite(),
        sum_over(with_added(files, added, suppressed), measure) == sum_over(files, measure)
            + measure(joining(files, added, suppressed)),
    decreases added.len(),
{
    if added.len() > 0 {
        let rest = added.drop_last();
        adds_measure(files, rest, suppressed, measure);
        let before = with_added(files, rest, suppressed);
        let entry = added.last();
        let existing = files_of(before, entry.key);
        let new = accepted(existing, entry.files, suppressed);
        sum_with(before, measure, entry.key, existing + new);
        assert(measure(existing + new) == measure(existing) + measure(new));
        assert(measure(joining(files, rest, suppressed) + new) == measure(
            joining(files, rest, suppressed),
        ) + measure(new));
    }
}

proof fn removals_measure(
    files: FileMap,
    removed: Seq<TableEntry>,
    measure: spec_fn(Seq<ParquetFile>) -> nat,
)
    requires
        files.dom().finite(),
        is_additive(measure),
    ensures
        with_removed(files, removed).dom().finite(),
        sum_over(with_removed(files, removed), measure) + measure(leaving(files, removed))
            == sum_over(files, measure),
    decreases removed.len(),
{
    if removed.len() > 0 {
        let rest = removed.drop_last();
        removals_measure(files, rest, measure);
        let before = with_removed(files, rest);
        let entry = removed.last();
        let existing = files_of(before, entry.key);
        let paths = path_set(entry.files);
        parts_measure(existing, paths, measure);
        if before.contains_key(entry.key) {
            sum_with(before, measure, entry.key, without(existing, paths));
        } else {
            reveal(Seq::filter);
        }
        assert(measure(leaving(files, rest) + within(existing, paths)) == measure(
            leaving(files, rest),
        ) + measure(within(existing, paths)));
    }
}

/// How many files there are.
pub open spec fn file_count() -> spec_fn(Seq<ParquetFile>) -> nat {
    |files: Seq<ParquetFile>| files.len()
}

/// How many rows there are.
pub open spec fn row_count() -> spec_fn(Seq<ParquetFile>) -> nat {
    |files: Seq<ParquetFile>| total_rows(files)
}

/// How many bytes there are.
pub open spec fn byte_count() -> spec_fn(Seq<ParquetFile>) -> nat {
    |files: Seq<ParquetFile>| total_bytes(files)
}

proof fn totals_concat(a: Seq<ParquetFile>, b: Seq<ParquetFile>)
    ensures
        total_rows(a + b) == total_rows(a) + total_rows(b),
        total_bytes(a + b) == total_bytes(a) + total_bytes(b),
    decreases b.len(),
{
    if b.len() == 0 {
        assert(a + b =~= a);
    } else {
        totals_concat(a, b.drop_last());
        assert((a + b).drop_last() =~= a + b.drop_last());
    }
}

proof fn counts_are_additive()
    ensures
        is_additive(file_count()),
        is_additive(row_count()),
        is_additive(byte_count()),
{
    assert forall|a: Seq<ParquetFile>, b: Seq<ParquetFile>| #[trigger]
        row_count()(a + b) == row_count()(a) + row_count()(b) by {
        totals_concat(a, b);
    }
    assert forall|a: Seq<ParquetFile>, b: Seq<ParquetFile>| #[trigger]
        byte_count()(a + b) == byte_count()(a) + byte_count()(b) by {
        totals_concat(a, b);
    }
}

/// The counters tell how many files, rows and bytes are live.
pub open spec fn counters_are_true(t: FileState) -> bool {
    &&& t.files.dom().finite()
    &&& t.count == sum_over(t.files, file_count())
    &&& t.rows == sum_over(t.files, row_count())
    &&& t.bytes_added - t.bytes_removed == sum_over(t.files, byte_count())
}

/// The counters stay true through a fold, whatever it deduplicates, suppresses or finds
/// missing, as long as they do not overflow.
pub proof fn fold_keeps_counters_true(t: FileState, manifest: Manifest, source: Option<Seq<char>>)
    requires
        counters_are_true(t),
        t.count + fold_joins(t.live(), manifest).len() <= u64::MAX,
        t.rows + total_rows(fold_joins(t.live(), manifest)) <= u64::MAX,
        t.bytes_added + total_bytes(fold_joins(t.live(), manifest)) <= u64::MAX,
        t.bytes_removed + total_bytes(fold_leaves(t.live(), manifest)) <= u64::MAX,
    ensures
        counters_are_true(after_fold(t, manifest, source)),
{
    counts_are_additive();
    let stones = t.tombstones.dom();
    let grown = with_added(t.files, manifest.added, stones);
    adds_measure(t.files, manifest.added, stones, file_count());
    adds_measure(t.files, manifest.added, stones, row_count());
    adds_measure(t.files, manifest.added, stones, byte_count());
    removals_measure(grown, manifest.removed, file_count());
    removals_measure(grown, manifest.removed, row_count());
    removals_measure(grown, manifest.removed, byte_count());
}

/// A fold changes the totals of files, rows and bytes by what joins, less what leaves.
pub proof fn fold_changes_totals(live: LiveFiles, manifest: Manifest, source: Option<Seq<char>>)
    requires
        live.files.dom().finite(),
    ensures
        ({
            let after = folded(live, manifest, source).files;
            let joins = fold_joins(live, manifest);
            let leaves = fold_leaves(live, manifest);
            &&& after.dom().finite()
            &&& sum_over(after, file_count()) - sum_over(live.files, file_count()) == joins.len()
                - leaves.len()
            &&& sum_over(after, row_count()) - sum_over(live.files, row_count()) == total_rows(
                joins,
            ) - total_rows(leaves)
            &&& sum_over(after, byte_count()) - sum_over(live.files, byte_count()) == total_bytes(
                joins,
            ) - total_bytes(leaves)
        }),
{
    counts_are_additive();
    let stones = live.tombstones.dom();
    let grown = with_added(live.files, manifest.added, stones);
    adds_measure(live.files, manifest.added, stones, file_count());
    adds_measure(live.files, manifest.added, stones, row_count());
    adds_measure(live.files, manifest.added, stones, byte_count());
    removals_measure(grown, manifest.removed, file_count());
    removals_measure(grown, manifest.removed, row_count());
    removals_measure(grown, manifest.removed, byte_count());
}

/// The counters stay true when files are removed from a table by path.
pub proof fn remove_keeps_counters_true(t: FileState, key: (DbId, TableId), paths: Set<Seq<char>>)
    requires
        counters_are_true(t),
        t.bytes_removed + total_bytes(within(files_of(t.files, key), paths)) <= u64::MAX,
    ensures
        counters_are_true(after_remove(t, key, paths)),
{
    counts_are_additive();
    if t.files.contains_key(key) {
        let existing = t.files[key];
        sum_with(t.files, file_count(), key, without(existing, paths));
        sum_with(t.files, row_count(), key, without(existing, paths));
        sum_with(t.files, byte_count(), key, without(existing, paths));
        parts_measure(existing, paths, file_count());
        parts_measure(existing, paths, row_count());
        parts_measure(existing, paths, byte_count());
        sum_without(t.files, file_count(), key);
        sum_without(t.files, row_count(), key);
    }
}

/// The counters are true of nothing.
pub proof fn counters_start_true()
    ensures
        counters_are_true(nothing_tracked()),
{
}

/// The counters stay true when a file is added, also one that its table holds already, as
/// long as they do not overflow.
pub proof fn add_keeps_counters_true(t: FileState, key: (DbId, TableId), file: ParquetFile)
    requires
        counters_are_true(t),
        t.count < u64::MAX,
        t.rows + file.row_count <= u64::MAX,
        t.bytes_added + file.size_bytes <= u64::MAX,
    ensures
        counters_are_true(after_add(t, key, file)),
{
    counts_are_additive();
    let existing = files_of(t.files, key);
    let one = seq![file];
    assert(existing.push(file) =~= existing + one);
    assert(file_count()(existing + one) == file_count()(existing) + file_count()(one));
    assert(row_count()(existing + one) == row_count()(existing) + row_count()(one));
    assert(byte_count()(existing + one) == byte_count()(existing) + byte_count()(one));
    assert(one.drop_last() =~= Seq::empty());
    assert(total_rows(one) == total_rows(one.drop_last()) + file.row_count as nat);
    assert(total_bytes(one) == total_bytes(one.drop_last()) + file.size_bytes as nat);
    sum_with(t.files, file_count(), key, existing.push(file));
    sum_with(t.files, row_count(), key, existing.push(file));
    sum_with(t.files, byte_count(), key, existing.push(file));
}

/// No path occurs twice, neither in a table nor in two of them. Object storage has one
/// object under a path.
pub open spec fn paths_are_distinct(files: FileMap) -> bool {
    forall|k: (DbId, TableId), i: int, l: (DbId, TableId), j: int|
        #![trigger files[k][i], files[l][j]]
        files.contains_key(k) && files.contains_key(l) && 0 <= i < files[k].len() && 0 <= j
            < files[l].len() && files[k][i].path@ == files[l][j].path@ ==> k == l && i == j
}

proof fn without_nothing(files: Seq<ParquetFile>)
    ensures
        without(files, Set::empty()) == files,
    decreases files.len(),
{
    reveal(Seq::filter);
    if files.len() > 0 {
        without_nothing(files.drop_last());
        assert(files.drop_last().push(files.last()) =~= files);
    } else {
        assert(without(files, Set::empty()) =~= files);
    }
}

proof fn without_absent(files: Seq<ParquetFile>, paths: Set<Seq<char>>, p: Seq<char>)
    requires
        !has_path(files, p),
    ensures
        without(files, paths.insert(p)) == without(files, paths),
    decreases files.len(),
{
    reveal(Seq::filter);
    if files.len() > 0 {
        let rest = files.drop_last();
        assert(files[files.len() - 1].path@ != p);
        assert(!has_path(rest, p)) by {
            if has_path(rest, p) {
                let i = choose|i: int| 0 <= i < rest.len() && (#[trigger] rest[i]).path@ == p;
                assert(files[i].path@ == p);
            }
        }
        without_absent(rest, paths, p);
    }
}

proof fn without_one(
    files: Seq<ParquetFile>,
    paths: Set<Seq<char>>,
    at: int,
    measure: spec_fn(Seq<ParquetFile>) -> nat,
)
    requires
        0 <= at < files.len(),
        !paths.contains(files[at].path@),
        forall|i: int| 0 <= i < files.len() && i != at ==> (#[trigger] files[i]).path@
            != files[at].path@,
        is_additive(measure),
    ensures
        measure(without(files, paths.insert(files[at].path@))) + measure(seq![files[at]])
            == measure(without(files, paths)),
    decreases files.len(),
{
    reveal(Seq::filter);
    let p = files[at].path@;
    let rest = files.drop_last();
    let one = seq![files.last()];
    if at == files.len() - 1 {
        assert(!has_path(rest, p)) by {
            if has_path(rest, p) {
                let i = choose|i: int| 0 <= i < rest.len() && (#[trigger] rest[i]).path@ == p;
                assert(files[i].path@ == p);
            }
        }
        without_absent(rest, paths, p);
        assert(without(files, paths) =~= without(rest, paths) + one);
        assert(measure(without(rest, paths) + one) == measure(without(rest, paths)) + measure(one));
    } else {
        assert(files[files.len() - 1].path@ != p);
        assert forall|i: int| 0 <= i < rest.len() && i != at implies (#[trigger] rest[i]).path@
            != p by {
            assert(rest[i] == files[i]);
        }
        without_one(rest, paths, at, measure);
        let more = paths.insert(p);
        if !paths.contains(files.last().path@) {
            assert(without(files, paths) =~= without(rest, paths) + one);
            assert(without(files, more) =~= without(rest, more) + one);
            assert(measure(without(rest, paths) + one) == measure(without(rest, paths)) + measure(
                one,
            ));
            assert(measure(without(rest, more) + one) == measure(without(rest, more)) + measure(
                one,
            ));
        }
    }
}

proof fn dropping_one_measure(
    files: FileMap,
    paths: Set<Seq<char>>,
    item: Queued,
    measure: spec_fn(Seq<ParquetFile>) -> nat,
)
    requires
        files.dom().finite(),
        paths_are_distinct(files),
        files.contains_key(item.key),
        files[item.key].contains(item.file),
        !paths.contains(item.file.path@),
        is_additive(measure),
    ensures
        all_without(files, paths.insert(item.file.path@)).dom().finite(),
        all_without(files, paths).dom().finite(),
        sum_over(all_without(files, paths.insert(item.file.path@)), measure) + measure(
            seq![item.file],
        ) == sum_over(all_without(files, paths), measure),
{
    let p = item.file.path@;
    let before = all_without(files, paths);
    let after = all_without(files, paths.insert(p));
    let at = choose|i: int| 0 <= i < files[item.key].len() && files[item.key][i] == item.file;
    assert(files[item.key][at] == item.file);
    assert(before.dom() =~= files.dom());
    assert(after.dom() =~= files.dom());
    assert forall|i: int| 0 <= i < files[item.key].len() && i != at implies (
    #[trigger] files[item.key][i]).path@ != p by {
        assert(files[item.key][at].path@ == p);
    }
    without_one(files[item.key], paths, at, measure);
    assert forall|k: (DbId, TableId)| k != item.key && files.contains_key(k) implies after[k]
        == before[k] by {
        if has_path(files[k], p) {
            let i = choose|i: int| 0 <= i < files[k].len() && (#[trigger] files[k][i]).path@ == p;
            assert(files[k][i].path@ == files[item.key][at].path@);
        }
        without_absent(files[k], paths, p);
    }
    assert(after =~= before.insert(item.key, after[item.key]));
    sum_with(before, measure, item.key, after[item.key]);
}

/// The paths of the queued files.
pub open spec fn queued_paths(queue: Seq<Queued>) -> Set<Seq<char>> {
    Set::new(|p: Seq<char>| is_queued(queue, p))
}

proof fn dropping_queue_measure(
    files: FileMap,
    queue: Seq<Queued>,
    measure: spec_fn(Seq<ParquetFile>) -> nat,
)
    requires
        files.dom().finite(),
        paths_are_distinct(files),
        forall|n: int| #![trigger queue[n]]
            0 <= n < queue.len() ==> files.contains_key(queue[n].key)
                && files[queue[n].key].contains(queue[n].file),
        forall|m: int, n: int| 0 <= m < n < queue.len() ==> queue[m].file.path@
            != queue[n].file.path@,
        is_additive(measure),
    ensures
        all_without(files, queued_paths(queue)).dom().finite(),
        sum_over(all_without(files, queued_paths(queue)), measure) + measure(queued_files(queue))
            == sum_over(files, measure),
    decreases queue.len(),
{
    if queue.len() == 0 {
        assert(queued_paths(queue) =~= Set::empty());
        assert(queued_files(queue) =~= Seq::empty());
        assert(all_without(files, queued_paths(queue)) =~= files) by {
            assert forall|k: (DbId, TableId)| files.contains_key(k) implies without(
                files[k],
                queued_paths(queue),
            ) == files[k] by {
                without_nothing(files[k]);
            }
        }
    } else {
        let rest = queue.drop_last();
        let item = queue.last();
        let p = item.file.path@;
        assert forall|n: int| #![trigger rest[n]] 0 <= n < rest.len() implies files.contains_key(
            rest[n].key,
        ) && files[rest[n].key].contains(rest[n].file) by {
            assert(rest[n] == queue[n]);
        }
        dropping_queue_measure(files, rest, measure);
        assert(!queued_paths(rest).contains(p)) by {
            if is_queued(rest, p) {
                let m = choose|m: int| 0 <= m < rest.len() && (#[trigger] rest[m]).file.path@ == p;
                assert(queue[m].file.path@ == queue[queue.len() - 1].file.path@);
            }
        }
        assert(files.contains_key(queue[queue.len() - 1].key));
        dropping_one_measure(files, queued_paths(rest), item, measure);
        assert(queued_paths(queue) =~= queued_paths(rest).insert(p)) by {
            assert forall|q: Seq<char>| queued_paths(queue).contains(q) <==> queued_paths(
                rest,
            ).insert(p).contains(q) by {
                if is_queued(queue, q) {
                    let m = choose|m: int|
                        0 <= m < queue.len() && (#[trigger] queue[m]).file.path@ == q;
                    if m < rest.len() {
                        assert(rest[m].file.path@ == q);
                    }
                }
                if is_queued(rest, q) {
                    let m = choose|m: int|
                        0 <= m < rest.len() && (#[trigger] rest[m]).file.path@ == q;
                    assert(queue[m].file.path@ == q);
                }
                if q == p {
                    assert(queue[queue.len() - 1].file.path@ == q);
                }
            }
        }
        assert(queued_files(queue) =~= queued_files(rest) + seq![item.file]);
        assert(measure(queued_files(rest) + seq![item.file]) == measure(queued_files(rest))
            + measure(seq![item.file]));
    }
}

/// The counters stay true through a deletion pass, given that no path occurs twice and that
/// they do not overflow.
pub proof fn deletion_keeps_counters_true(
    t: FileState,
    cutoffs: Seq<RetentionCutoff>,
    queue: Seq<Queued>,
)
    requires
        counters_are_true(t),
        paths_are_distinct(t.files),
        is_deletion_queue(t, cutoffs, queue),
        t.bytes_removed + total_bytes(queued_files(queue)) <= u64::MAX,
    ensures
        counters_are_true(after_deletion(t, cutoffs, queue)),
{
    if queue.len() > 0 {
        counts_are_additive();
        let gone = condemned_paths(t, cutoffs);
        assert(gone =~= queued_paths(queue)) by {
            assert forall|p: Seq<char>| is_queued(queue, p) implies gone.contains(p) by {
                let n = choose|n: int| 0 <= n < queue.len() && (#[trigger] queue[n]).file.path@ == p;
                let item = queue[n];
                let i = choose|i: int|
                    0 <= i < t.files[item.key].len() && t.files[item.key][i] == item.file;
                assert(holds(t, item.key, i));
            }
        }
        dropping_queue_measure(t.files, queue, file_count());
        dropping_queue_measure(t.files, queue, row_count());
        dropping_queue_measure(t.files, queue, byte_count());
    }
}

} // verus!

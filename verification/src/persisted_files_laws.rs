//! What holds of the tracked files across operations.

use vstd::prelude::*;

use crate::collections::{FileMap, TombstoneMap};
use crate::files::{has_path, DbId, Manifest, ParquetFile, TableEntry, TableId};
use crate::fold::{
    buried, files_of, with_added, with_buried, with_removed, within, without,
};
use crate::fold_laws::{has_path_without, tombstone_suppresses_add, well_keyed};
use crate::order::{reordered_keeps_counts, stable_sort_sorts, SortKey};
use crate::persisted_files::{
    after_deletion, after_fold, after_folds, after_remove, condemned_paths, holds, is_condemned,
    is_deletion_queue, is_newest_first, is_queued, lists_compaction, lists_gen1, needed,
    nothing_tracked, seeded_compaction, seeded_gen1, time_keys, with_gone, within_bound,
    FileState, Queued, RetentionCutoff, MAX_EVICTION_TOMBSTONES,
};
use crate::text::first_segment;
use crate::tombstone::TombstoneKey;

verus! {

/// A query gets its files in descending order of their earliest time, each of them as often
/// as it is there, and no others.
pub proof fn newest_first_is_sorted(r: Seq<ParquetFile>, source: Seq<ParquetFile>)
    requires
        is_newest_first(r, source),
    ensures
        r.to_multiset() == source.to_multiset(),
        forall|i: int, j: int| 0 <= i < j < r.len() ==> r[i].min_time >= r[j].min_time,
{
    let order = stable_sort_sorts(time_keys(source), source, r);
    reordered_keeps_counts(source, order);
    assert forall|i: int, j: int| 0 <= i < j < r.len() implies r[i].min_time >= r[j].min_time by {
        assert(order[i] < source.len() && order[j] < source.len());
        assert(!time_keys(source)[order[j] as int].before(&time_keys(source)[order[i] as int]));
    }
}

/// After a deletion pass no file is left that had to go.
pub proof fn deletion_is_complete(
    t: FileState,
    cutoffs: Seq<RetentionCutoff>,
    queue: Seq<Queued>,
    key: (DbId, TableId),
    i: int,
)
    requires
        is_deletion_queue(t, cutoffs, queue),
        holds(after_deletion(t, cutoffs, queue), key, i),
    ensures
        !is_condemned(t, cutoffs, key, after_deletion(t, cutoffs, queue).files[key][i]),
{
    let after = after_deletion(t, cutoffs, queue);
    let file = after.files[key][i];
    let gone = condemned_paths(t, cutoffs);
    if is_condemned(t, cutoffs, key, file) {
        if queue.len() == 0 {
            assert(holds(t, key, i));
            assert(gone.contains(file.path@));
            assert(is_queued(queue, file.path@));
        } else {
            assert(after.files[key] == without(t.files[key], gone));
            assert(has_path(after.files[key], file.path@));
            has_path_without(t.files[key], gone, file.path@);
            file_is_from(t.files[key], gone, i);
            let k = choose|k: int| 0 <= k < t.files[key].len() && t.files[key][k] == file;
            assert(holds(t, key, k));
            assert(gone.contains(file.path@));
        }
    }
}

proof fn file_is_from(files: Seq<ParquetFile>, paths: Set<Seq<char>>, i: int)
    requires
        0 <= i < without(files, paths).len(),
    ensures
        files.contains(without(files, paths)[i]),
    decreases files.len(),
{
    reveal(Seq::filter);
    if files.len() > 0 {
        let rest = files.drop_last();
        if i < without(rest, paths).len() {
            file_is_from(rest, paths, i);
            let k = choose|k: int| 0 <= k < rest.len() && rest[k] == without(rest, paths)[i];
            assert(files[k] == rest[k]);
        } else {
            assert(files[files.len() - 1] == without(files, paths)[i]);
        }
    }
}

/// A second deletion pass under the same cutoffs finds nothing to remove.
pub proof fn deletion_is_idempotent(
    t: FileState,
    cutoffs: Seq<RetentionCutoff>,
    queue: Seq<Queued>,
    again: Seq<Queued>,
)
    requires
        is_deletion_queue(t, cutoffs, queue),
        queue.len() > 0,
        is_deletion_queue(after_deletion(t, cutoffs, queue), cutoffs, again),
    ensures
        again.len() == 0,
{
    let after = after_deletion(t, cutoffs, queue);
    if again.len() > 0 {
        let item = again[0];
        assert(is_condemned(after, cutoffs, item.key, item.file));
        let i = choose|i: int|
            0 <= i < after.files[item.key].len() && after.files[item.key][i] == item.file;
        assert(holds(after, item.key, i));
        deletion_is_complete(t, cutoffs, queue, item.key, i);
    }
}

/// The number of remembered missing paths stays within its bound.
pub proof fn evictions_stay_bounded(t: FileState)
    ensures
        within_bound(t).evictions.len() <= MAX_EVICTION_TOMBSTONES,
        within_bound(t).files == t.files,
        forall|p: Seq<char>| #[trigger]
            within_bound(t).tombstones.contains_key(p) ==> t.tombstones.contains_key(p)
                && within_bound(t).tombstones[p] == t.tombstones[p],
        forall|p: Seq<char>| #[trigger]
            t.tombstones.contains_key(p) && t.tombstones[p] != TombstoneKey::ObjectGone
                ==> within_bound(t).tombstones.contains_key(p),
    decreases t.evictions.len(),
{
    if t.evictions.len() > MAX_EVICTION_TOMBSTONES {
        let oldest = t.evictions[0];
        let gone = t.tombstones.contains_key(oldest) && t.tombstones[oldest]
            == TombstoneKey::ObjectGone;
        let next = FileState {
            tombstones: if gone {
                t.tombstones.remove(oldest)
            } else {
                t.tombstones
            },
            evictions: t.evictions.drop_first(),
            ..t
        };
        evictions_stay_bounded(next);
        assert forall|p: Seq<char>| #[trigger]
            t.tombstones.contains_key(p) && t.tombstones[p]
                != TombstoneKey::ObjectGone implies within_bound(t).tombstones.contains_key(p) by {
            assert(next.tombstones.contains_key(p));
        }
    }
}

proof fn gone_paths_have_tombstones(t: FileState, paths: Seq<Seq<char>>, p: Seq<char>)
    requires
        paths.contains(p) || t.tombstones.contains_key(p),
    ensures
        with_gone(t, paths).tombstones.contains_key(p),
        with_gone(t, paths).evictions.len() <= t.evictions.len() + paths.len(),
        with_gone(t, paths).files == t.files,
    decreases paths.len(),
{
    if paths.len() > 0 {
        let rest = paths.drop_last();
        if paths.last() == p && !(rest.contains(p) || t.tombstones.contains_key(p)) {
            gone_paths_bound(t, rest);
        } else {
            if paths.contains(p) {
                let i = choose|i: int| 0 <= i < paths.len() && paths[i] == p;
                if i < rest.len() {
                    assert(rest[i] == p);
                }
            }
            gone_paths_have_tombstones(t, rest, p);
        }
    }
}

proof fn gone_paths_bound(t: FileState, paths: Seq<Seq<char>>)
    ensures
        with_gone(t, paths).evictions.len() <= t.evictions.len() + paths.len(),
        with_gone(t, paths).files == t.files,
    decreases paths.len(),
{
    if paths.len() > 0 {
        gone_paths_bound(t, paths.drop_last());
    }
}

/// A path that was found missing does not come back: whatever is folded next, no
/// table that lacks it gets it. (Beyond the bound the oldest are forgotten.)
pub proof fn missing_path_stays_out(
    t: FileState,
    paths: Seq<Seq<char>>,
    manifest: Manifest,
    source: Option<Seq<char>>,
    key: (DbId, TableId),
    p: Seq<char>,
)
    requires
        paths.contains(p),
        t.evictions.len() + paths.len() <= MAX_EVICTION_TOMBSTONES,
        !has_path(files_of(t.files, key), p),
    ensures
        ({
            let remembered = within_bound(with_gone(t, paths));
            !has_path(files_of(after_fold(remembered, manifest, source).files, key), p)
        }),
{
    let remembered = within_bound(with_gone(t, paths));
    gone_paths_have_tombstones(t, paths, p);
    assert(remembered == with_gone(t, paths));
    tombstone_suppresses_add(remembered.live(), manifest, source, key, p);
}

/// Under higher marks no tombstone is kept that was dropped under lower ones.
pub proof fn collection_is_monotone(
    tombstones: TombstoneMap,
    low: Map<Seq<char>, u64>,
    high: Map<Seq<char>, u64>,
    compactions: Option<Seq<char>>,
    p: Seq<char>,
)
    requires
        forall|n: Seq<char>| #[trigger]
            low.contains_key(n) ==> high.contains_key(n) && low[n] <= high[n],
        needed(tombstones, high, compactions).contains_key(p),
    ensures
        needed(tombstones, low, compactions).contains_key(p),
{
}

/// The tombstones that a checkpoint keeps: all but those of files known to be
/// gone.
pub open spec fn checkpointed(tombstones: TombstoneMap) -> TombstoneMap {
    Map::new(
        |p: Seq<char>|
            tombstones.contains_key(p) && tombstones[p] != TombstoneKey::ObjectGone,
        |p: Seq<char>| tombstones[p],
    )
}

proof fn seeded_gen1_at(start: TombstoneMap, gen1: Seq<(String, u64)>, p: Seq<char>)
    requires
        forall|i: int, j: int| 0 <= i < j < gen1.len() ==> gen1[i].0@ != gen1[j].0@,
    ensures
        ({
            let after = seeded_gen1(start, gen1);
            &&& forall|i: int|
                0 <= i < gen1.len() && (#[trigger] gen1[i]).0@ == p && first_segment(p).len() > 0
                    ==> after.contains_key(p) && after[p] == (TombstoneKey::WalSeq {
                    node_id: first_segment(p),
                    wal_seq: gen1[i].1,
                })
            &&& (forall|i: int| 0 <= i < gen1.len() ==> (#[trigger] gen1[i]).0@ != p) ==> (
            after.contains_key(p) == start.contains_key(p) && (start.contains_key(p) ==> after[p]
                == start[p]))
        }),
    decreases gen1.len(),
{
    if gen1.len() > 0 {
        let rest = gen1.drop_last();
        assert forall|i: int, j: int| 0 <= i < j < rest.len() implies rest[i].0@ != rest[j].0@ by {
            assert(rest[i] == gen1[i] && rest[j] == gen1[j]);
        }
        seeded_gen1_at(start, rest, p);
        let after = seeded_gen1(start, gen1);
        assert forall|i: int|
            0 <= i < gen1.len() && (#[trigger] gen1[i]).0@ == p && first_segment(p).len()
                > 0 implies after.contains_key(p) && after[p] == (TombstoneKey::WalSeq {
            node_id: first_segment(p),
            wal_seq: gen1[i].1,
        }) by {
            if i < rest.len() {
                assert(rest[i].0@ == p);
                assert(gen1[i].0@ != gen1[gen1.len() - 1].0@);
            }
        }
        if forall|i: int| 0 <= i < gen1.len() ==> (#[trigger] gen1[i]).0@ != p {
            assert forall|i: int| 0 <= i < rest.len() implies (#[trigger] rest[i]).0@ != p by {
                assert(rest[i] == gen1[i]);
            }
            assert(gen1[gen1.len() - 1].0@ != p);
        }
    }
}

proof fn seeded_compaction_at(start: TombstoneMap, list: Seq<(String, String)>, p: Seq<char>)
    requires
        forall|i: int, j: int| 0 <= i < j < list.len() ==> list[i].0@ != list[j].0@,
    ensures
        ({
            let after = seeded_compaction(start, list);
            &&& forall|i: int|
                0 <= i < list.len() && (#[trigger] list[i]).0@ == p ==> after.contains_key(p)
                    && after[p] == (TombstoneKey::Compaction { removing_id: list[i].1@ })
            &&& (forall|i: int| 0 <= i < list.len() ==> (#[trigger] list[i]).0@ != p) ==> (
            after.contains_key(p) == start.contains_key(p) && (start.contains_key(p) ==> after[p]
                == start[p]))
        }),
    decreases list.len(),
{
    if list.len() > 0 {
        let rest = list.drop_last();
        assert forall|i: int, j: int| 0 <= i < j < rest.len() implies rest[i].0@ != rest[j].0@ by {
            assert(rest[i] == list[i] && rest[j] == list[j]);
        }
        seeded_compaction_at(start, rest, p);
        let after = seeded_compaction(start, list);
        assert forall|i: int| 0 <= i < list.len() && (#[trigger] list[i]).0@ == p implies
            after.contains_key(p) && after[p] == (TombstoneKey::Compaction {
            removing_id: list[i].1@,
        }) by {
            if i < rest.len() {
                assert(rest[i].0@ == p);
                assert(list[i].0@ != list[list.len() - 1].0@);
            }
        }
        if forall|i: int| 0 <= i < list.len() ==> (#[trigger] list[i]).0@ != p {
            assert forall|i: int| 0 <= i < rest.len() implies (#[trigger] rest[i]).0@ != p by {
                assert(rest[i] == list[i]);
            }
            assert(list[list.len() - 1].0@ != p);
        }
    }
}

/// Tombstones survive a checkpoint: what a restarted node puts back is what was
/// kept.
pub proof fn tombstones_round_trip(
    tombstones: TombstoneMap,
    gen1: Seq<(String, u64)>,
    compaction: Seq<(String, String)>,
)
    requires
        well_keyed(tombstones),
        lists_gen1(gen1, tombstones),
        lists_compaction(compaction, tombstones),
    ensures
        seeded_compaction(seeded_gen1(Map::empty(), gen1), compaction) == checkpointed(tombstones),
{
    let empty = TombstoneMap::empty();
    let middle = seeded_gen1(empty, gen1);
    let after = seeded_compaction(middle, compaction);
    let want = checkpointed(tombstones);
    assert forall|p: Seq<char>| #[trigger] agree_at(after, want, p) by {
        seeded_gen1_at(empty, gen1, p);
        seeded_compaction_at(middle, compaction, p);
        if tombstones.contains_key(p) && tombstones[p] is WalSeq {
            let i = choose|i: int| 0 <= i < gen1.len() && (#[trigger] gen1[i]).0@ == p;
            assert(gen1[i].0@ == p);
            assert forall|j: int| 0 <= j < compaction.len() implies (#[trigger] compaction[j]).0@
                != p by {}
        } else if tombstones.contains_key(p) && tombstones[p] is Compaction {
            let i = choose|i: int| 0 <= i < compaction.len() && (#[trigger] compaction[i]).0@ == p;
            assert(compaction[i].0@ == p);
        } else {
            assert forall|j: int| 0 <= j < compaction.len() implies (#[trigger] compaction[j]).0@
                != p by {}
            assert forall|j: int| 0 <= j < gen1.len() implies (#[trigger] gen1[j]).0@ != p by {}
        }
    }
    assert(after =~= want) by {
        assert forall|p: Seq<char>| after.contains_key(p) == want.contains_key(p) by {
            assert(agree_at(after, want, p));
        }
        assert forall|p: Seq<char>| after.contains_key(p) implies after[p] == want[p] by {
            assert(agree_at(after, want, p));
        }
    }
}

spec fn agree_at(a: TombstoneMap, b: TombstoneMap, p: Seq<char>) -> bool {
    a.contains_key(p) == b.contains_key(p) && (a.contains_key(p) ==> a[p] == b[p])
}

/// Removing the same files from a table once more changes nothing.
pub proof fn second_removal_changes_nothing(
    t: FileState,
    key: (DbId, TableId),
    paths: Set<Seq<char>>,
)
    ensures
        after_remove(after_remove(t, key, paths), key, paths) == after_remove(t, key, paths),
{
    if t.files.contains_key(key) {
        let once = after_remove(t, key, paths);
        let left = without(t.files[key], paths);
        nothing_left_to_take(t.files[key], paths);
        assert(within(left, paths) =~= Seq::empty());
        assert(once.files.insert(key, left) =~= once.files);
    }
}

proof fn nothing_left_to_take(files: Seq<ParquetFile>, paths: Set<Seq<char>>)
    ensures
        within(without(files, paths), paths).len() == 0,
        without(without(files, paths), paths) == without(files, paths),
    decreases files.len(),
{
    reveal(Seq::filter);
    if files.len() > 0 {
        let rest = files.drop_last();
        nothing_left_to_take(rest, paths);
        let left = without(files, paths);
        if !paths.contains(files.last().path@) {
            assert(left.drop_last() =~= without(rest, paths));
        }
    }
}

/// Folding manifests in two goes is the same as folding them in one.
pub proof fn folds_compose(t: FileState, first: Seq<Manifest>, second: Seq<Manifest>)
    ensures
        after_folds(t, first + second) == after_folds(after_folds(t, first), second),
    decreases second.len(),
{
    if second.len() == 0 {
        assert(first + second =~= first);
    } else {
        folds_compose(t, first, second.drop_last());
        assert((first + second).drop_last() =~= first + second.drop_last());
    }
}

/// Building from manifests is the same as folding them one by one, from nothing.
pub proof fn building_is_folding(list: Seq<Manifest>, manifest: Manifest)
    ensures
        after_folds(nothing_tracked(), Seq::empty()) == nothing_tracked(),
        after_folds(nothing_tracked(), list.push(manifest)) == after_fold(
            after_folds(nothing_tracked(), list),
            manifest,
            None,
        ),
{
    assert(list.push(manifest).drop_last() =~= list);
}

/// A tombstone that is put back is in the next checkpoint, with its sequence number: the last
/// that is put back for a path counts.
pub proof fn seeded_gen1_is_listed(
    tombstones: TombstoneMap,
    gen1: Seq<(String, u64)>,
    compaction: Seq<(String, String)>,
    i: int,
    listed: Seq<(String, u64)>,
)
    requires
        0 <= i < gen1.len(),
        first_segment(gen1[i].0@).len() > 0,
        forall|j: int| i < j < gen1.len() ==> (#[trigger] gen1[j]).0@ != gen1[i].0@,
        forall|j: int| 0 <= j < compaction.len() ==> (#[trigger] compaction[j]).0@ != gen1[i].0@,
        lists_gen1(listed, seeded_compaction(seeded_gen1(tombstones, gen1), compaction)),
    ensures
        exists|k: int|
            0 <= k < listed.len() && (#[trigger] listed[k]).0@ == gen1[i].0@ && listed[k].1
                == gen1[i].1,
{
    let p = gen1[i].0@;
    let seeded = seeded_gen1(tombstones, gen1);
    let after = seeded_compaction(seeded, compaction);
    seeded_gen1_last(tombstones, gen1, i);
    seeded_compaction_elsewhere(seeded, compaction, p);
    let k = choose|k: int| 0 <= k < listed.len() && (#[trigger] listed[k]).0@ == p;
    assert(after[listed[k].0@]->wal_seq == listed[k].1);
}

/// A tombstone of a compaction that is put back is in the next checkpoint, with the removing
/// compaction: the last that is put back for a path counts.
pub proof fn seeded_compaction_is_listed(
    tombstones: TombstoneMap,
    gen1: Seq<(String, u64)>,
    compaction: Seq<(String, String)>,
    i: int,
    listed: Seq<(String, String)>,
)
    requires
        0 <= i < compaction.len(),
        forall|j: int|
            i < j < compaction.len() ==> (#[trigger] compaction[j]).0@ != compaction[i].0@,
        lists_compaction(listed, seeded_compaction(seeded_gen1(tombstones, gen1), compaction)),
    ensures
        exists|k: int|
            0 <= k < listed.len() && (#[trigger] listed[k]).0@ == compaction[i].0@ && listed[k].1@
                == compaction[i].1@,
{
    let p = compaction[i].0@;
    let after = seeded_compaction(seeded_gen1(tombstones, gen1), compaction);
    seeded_compaction_last(seeded_gen1(tombstones, gen1), compaction, i);
    let k = choose|k: int| 0 <= k < listed.len() && (#[trigger] listed[k]).0@ == p;
    assert(after[listed[k].0@] == (TombstoneKey::Compaction { removing_id: listed[k].1@ }));
}

proof fn seeded_gen1_last(tombstones: TombstoneMap, gen1: Seq<(String, u64)>, i: int)
    requires
        0 <= i < gen1.len(),
        first_segment(gen1[i].0@).len() > 0,
        forall|j: int| i < j < gen1.len() ==> (#[trigger] gen1[j]).0@ != gen1[i].0@,
    ensures
        seeded_gen1(tombstones, gen1).contains_key(gen1[i].0@),
        seeded_gen1(tombstones, gen1)[gen1[i].0@] == (TombstoneKey::WalSeq {
            node_id: first_segment(gen1[i].0@),
            wal_seq: gen1[i].1,
        }),
    decreases gen1.len(),
{
    if i < gen1.len() - 1 {
        let rest = gen1.drop_last();
        assert(gen1[gen1.len() - 1].0@ != gen1[i].0@);
        assert forall|j: int| i < j < rest.len() implies (#[trigger] rest[j]).0@ != rest[i].0@ by {
            assert(rest[j] == gen1[j]);
        }
        seeded_gen1_last(tombstones, rest, i);
    }
}

proof fn seeded_compaction_last(tombstones: TombstoneMap, list: Seq<(String, String)>, i: int)
    requires
        0 <= i < list.len(),
        forall|j: int| i < j < list.len() ==> (#[trigger] list[j]).0@ != list[i].0@,
    ensures
        seeded_compaction(tombstones, list).contains_key(list[i].0@),
        seeded_compaction(tombstones, list)[list[i].0@] == (TombstoneKey::Compaction {
            removing_id: list[i].1@,
        }),
    decreases list.len(),
{
    if i < list.len() - 1 {
        let rest = list.drop_last();
        assert(list[list.len() - 1].0@ != list[i].0@);
        assert forall|j: int| i < j < rest.len() implies (#[trigger] rest[j]).0@ != rest[i].0@ by {
            assert(rest[j] == list[j]);
        }
        seeded_compaction_last(tombstones, rest, i);
    }
}

proof fn seeded_compaction_elsewhere(
    tombstones: TombstoneMap,
    list: Seq<(String, String)>,
    p: Seq<char>,
)
    requires
        forall|j: int| 0 <= j < list.len() ==> (#[trigger] list[j]).0@ != p,
    ensures
        seeded_compaction(tombstones, list).contains_key(p) == tombstones.contains_key(p),
        tombstones.contains_key(p) ==> seeded_compaction(tombstones, list)[p] == tombstones[p],
    decreases list.len(),
{
    if list.len() > 0 {
        let rest = list.drop_last();
        assert(list[list.len() - 1].0@ != p);
        assert forall|j: int| 0 <= j < rest.len() implies (#[trigger] rest[j]).0@ != p by {
            assert(rest[j] == list[j]);
        }
        seeded_compaction_elsewhere(tombstones, rest, p);
    }
}

/// The path has the tombstone of a file known to be gone from object storage.
pub open spec fn is_gone(tombstones: TombstoneMap, p: Seq<char>) -> bool {
    tombstones.contains_key(p) && tombstones[p] == TombstoneKey::ObjectGone
}

/// Every path known to be gone is queued, so that the bound on the queue bounds them.
pub open spec fn gone_are_queued(t: FileState) -> bool {
    forall|p: Seq<char>| #[trigger] is_gone(t.tombstones, p) ==> t.evictions.contains(p)
}

/// There are never more tombstones of files known to be gone than the bound allows: as long as
/// every such path is queued, which each operation keeps.
pub proof fn gone_paths_are_bounded(t: FileState)
    requires
        gone_are_queued(t),
        t.evictions.len() <= MAX_EVICTION_TOMBSTONES,
    ensures
        Set::new(|p: Seq<char>| is_gone(t.tombstones, p)).finite(),
        Set::new(|p: Seq<char>| is_gone(t.tombstones, p)).len() <= MAX_EVICTION_TOMBSTONES,
{
    let gone = Set::new(|p: Seq<char>| is_gone(t.tombstones, p));
    vstd::seq_lib::seq_to_set_is_finite(t.evictions);
    t.evictions.lemma_cardinality_of_set();
    assert(gone.subset_of(t.evictions.to_set())) by {
        assert forall|p: Seq<char>| gone.contains(p) implies t.evictions.to_set().contains(p) by {
            assert(is_gone(t.tombstones, p));
        }
    }
    vstd::set_lib::lemma_len_subset(gone, t.evictions.to_set());
}

/// Nothing tracked, nothing gone.
pub proof fn nothing_is_gone_at_first()
    ensures
        gone_are_queued(nothing_tracked()),
        nothing_tracked().evictions.len() <= MAX_EVICTION_TOMBSTONES,
{
}

/// Taking note that paths are gone keeps every path known to be gone queued, within the bound.
pub proof fn eviction_keeps_gone_queued(t: FileState, paths: Seq<Seq<char>>)
    requires
        gone_are_queued(t),
    ensures
        gone_are_queued(within_bound(with_gone(t, paths))),
        within_bound(with_gone(t, paths)).evictions.len() <= MAX_EVICTION_TOMBSTONES,
{
    with_gone_keeps_queued(t, paths);
    within_bound_keeps_queued(with_gone(t, paths));
    evictions_stay_bounded(with_gone(t, paths));
}

proof fn with_gone_keeps_queued(t: FileState, paths: Seq<Seq<char>>)
    requires
        gone_are_queued(t),
    ensures
        gone_are_queued(with_gone(t, paths)),
    decreases paths.len(),
{
    if paths.len() > 0 {
        let before = with_gone(t, paths.drop_last());
        let after = with_gone(t, paths);
        with_gone_keeps_queued(t, paths.drop_last());
        assert forall|p: Seq<char>| #[trigger]
            is_gone(after.tombstones, p) implies after.evictions.contains(p) by {
            if p == paths.last() && !before.tombstones.contains_key(p) {
                assert(after.evictions[after.evictions.len() - 1] == p);
            } else {
                assert(is_gone(before.tombstones, p));
                let i = choose|i: int| 0 <= i < before.evictions.len() && before.evictions[i] == p;
                assert(after.evictions[i] == p);
            }
        }
    }
}

proof fn within_bound_keeps_queued(t: FileState)
    requires
        gone_are_queued(t),
    ensures
        gone_are_queued(within_bound(t)),
    decreases t.evictions.len(),
{
    if t.evictions.len() > MAX_EVICTION_TOMBSTONES {
        let oldest = t.evictions[0];
        let next = FileState {
            tombstones: if is_gone(t.tombstones, oldest) {
                t.tombstones.remove(oldest)
            } else {
                t.tombstones
            },
            evictions: t.evictions.drop_first(),
            ..t
        };
        assert forall|p: Seq<char>| #[trigger]
            is_gone(next.tombstones, p) implies next.evictions.contains(p) by {
            assert(is_gone(t.tombstones, p));
            let i = choose|i: int| 0 <= i < t.evictions.len() && t.evictions[i] == p;
            assert(next.evictions[i - 1] == p);
        }
        within_bound_keeps_queued(next);
    }
}

/// A fold keeps every path known to be gone queued, and the queue as it is.
pub proof fn fold_keeps_gone_queued(t: FileState, manifest: Manifest, source: Option<Seq<char>>)
    requires
        gone_are_queued(t),
    ensures
        gone_are_queued(after_fold(t, manifest, source)),
        after_fold(t, manifest, source).evictions == t.evictions,
{
    let grown = with_added(t.files, manifest.added, t.tombstones.dom());
    burying_makes_none_gone(grown, t.tombstones, manifest.removed, source);
    let after = after_fold(t, manifest, source);
    assert forall|p: Seq<char>| #[trigger]
        is_gone(after.tombstones, p) implies after.evictions.contains(p) by {
        assert(is_gone(t.tombstones, p));
    }
}

proof fn burying_makes_none_gone(
    files: FileMap,
    tombstones: TombstoneMap,
    removed: Seq<TableEntry>,
    source: Option<Seq<char>>,
)
    ensures
        forall|p: Seq<char>| #[trigger]
            is_gone(with_buried(files, tombstones, removed, source), p) ==> is_gone(tombstones, p),
    decreases removed.len(),
{
    if removed.len() > 0 {
        let rest = removed.drop_last();
        burying_makes_none_gone(files, tombstones, rest, source);
        let before = with_buried(files, tombstones, rest, source);
        let entry = removed.last();
        let existing = files_of(with_removed(files, rest), entry.key);
        targets_make_none_gone(before, existing, entry.files, source);
        assert forall|p: Seq<char>| #[trigger]
            is_gone(with_buried(files, tombstones, removed, source), p) implies is_gone(
            tombstones,
            p,
        ) by {
            assert(is_gone(before, p));
        }
    }
}

proof fn targets_make_none_gone(
    tombstones: TombstoneMap,
    existing: Seq<ParquetFile>,
    targets: Seq<ParquetFile>,
    source: Option<Seq<char>>,
)
    ensures
        forall|p: Seq<char>| #[trigger]
            is_gone(buried(tombstones, existing, targets, source), p) ==> is_gone(tombstones, p),
    decreases targets.len(),
{
    if targets.len() > 0 {
        targets_make_none_gone(tombstones, existing, targets.drop_last(), source);
        let before = buried(tombstones, existing, targets.drop_last(), source);
        assert forall|p: Seq<char>| #[trigger]
            is_gone(buried(tombstones, existing, targets, source), p) implies is_gone(
            tombstones,
            p,
        ) by {
            assert(is_gone(before, p));
        }
    }
}

/// Dropping tombstones that are no longer needed keeps every path known to be gone queued.
pub proof fn collection_keeps_gone_queued(
    t: FileState,
    wal_high_water: Map<Seq<char>, u64>,
    compactions_high_water: Option<Seq<char>>,
)
    requires
        gone_are_queued(t),
    ensures
        gone_are_queued(
            FileState {
                tombstones: needed(t.tombstones, wal_high_water, compactions_high_water),
                ..t
            },
        ),
{
    let after = needed(t.tombstones, wal_high_water, compactions_high_water);
    assert forall|p: Seq<char>| #[trigger]
        is_gone(after, p) implies t.evictions.contains(p) by {
        assert(is_gone(t.tombstones, p));
    }
}

/// Putting tombstones back keeps every path known to be gone queued.
pub proof fn seeding_keeps_gone_queued(
    t: FileState,
    gen1: Seq<(String, u64)>,
    compaction: Seq<(String, String)>,
)
    requires
        gone_are_queued(t),
    ensures
        gone_are_queued(
            FileState {
                tombstones: seeded_compaction(seeded_gen1(t.tombstones, gen1), compaction),
                ..t
            },
        ),
{
    let seeded = seeded_gen1(t.tombstones, gen1);
    seeding_gen1_makes_none_gone(t.tombstones, gen1);
    seeding_compactions_makes_none_gone(seeded, compaction);
    assert forall|p: Seq<char>| #[trigger]
        is_gone(seeded_compaction(seeded, compaction), p) implies t.evictions.contains(p) by {
        assert(is_gone(seeded, p));
        assert(is_gone(t.tombstones, p));
    }
}

proof fn seeding_gen1_makes_none_gone(tombstones: TombstoneMap, gen1: Seq<(String, u64)>)
    ensures
        forall|p: Seq<char>| #[trigger]
            is_gone(seeded_gen1(tombstones, gen1), p) ==> is_gone(tombstones, p),
    decreases gen1.len(),
{
    if gen1.len() > 0 {
        seeding_gen1_makes_none_gone(tombstones, gen1.drop_last());
        let before = seeded_gen1(tombstones, gen1.drop_last());
        assert forall|p: Seq<char>| #[trigger]
            is_gone(seeded_gen1(tombstones, gen1), p) implies is_gone(tombstones, p) by {
            assert(is_gone(before, p));
        }
    }
}

proof fn seeding_compactions_makes_none_gone(
    tombstones: TombstoneMap,
    list: Seq<(String, String)>,
)
    ensures
        forall|p: Seq<char>| #[trigger]
            is_gone(seeded_compaction(tombstones, list), p) ==> is_gone(tombstones, p),
    decreases list.len(),
{
    if list.len() > 0 {
        seeding_compactions_makes_none_gone(tombstones, list.drop_last());
        let before = seeded_compaction(tombstones, list.drop_last());
        assert forall|p: Seq<char>| #[trigger]
            is_gone(seeded_compaction(tombstones, list), p) implies is_gone(tombstones, p) by {
            assert(is_gone(before, p));
        }
    }
}

} // verus!

//! The order in which manifests arrive does not matter.
//!
//! The manifests of writers and of compactions come in separate streams, so that a removal can
//! arrive ahead of the add that it refers to. It then leaves a tombstone, which keeps the add
//! out.

use vstd::prelude::*;

use crate::files::{has_path, DbId, Manifest, TableId};
use crate::fold::{files_of, folded, with_added, LiveFiles};
use crate::fold_laws::{
    adds_are_listed, has_path_without, is_listed, listed_paths, removal_is_by_path, removals_bury,
};
use crate::tombstone::tombstone_for;

verus! {

/// What folding a manifest in does to one path of one table.
proof fn folded_path(
    live: LiveFiles,
    manifest: Manifest,
    source: Option<Seq<char>>,
    key: (DbId, TableId),
    p: Seq<char>,
)
    ensures
        has_path(files_of(folded(live, manifest, source).files, key), p) == ((has_path(
            files_of(live.files, key),
            p,
        ) || (is_listed(manifest.added, key, p) && !live.tombstones.contains_key(p)))
            && !is_listed(manifest.removed, key, p)),
{
    let grown = with_added(live.files, manifest.added, live.tombstones.dom());
    adds_are_listed(live.files, manifest.added, live.tombstones.dom(), key, p);
    removal_is_by_path(grown, manifest.removed, key);
    has_path_without(files_of(grown, key), listed_paths(manifest.removed, key), p);
}

/// What folding a manifest in does to the tombstone of a path.
proof fn folded_tombstone(
    live: LiveFiles,
    manifest: Manifest,
    source: Option<Seq<char>>,
    p: Seq<char>,
)
    ensures
        live.tombstones.contains_key(p) ==> folded(
            live,
            manifest,
            source,
        ).tombstones.contains_key(p),
        folded(live, manifest, source).tombstones.contains_key(p) && !live.tombstones.contains_key(
            p,
        ) ==> exists|k: (DbId, TableId)| #[trigger] is_listed(manifest.removed, k, p),
        forall|k: (DbId, TableId)| #[trigger]
            is_listed(manifest.removed, k, p) && !has_path(files_of(live.files, k), p)
                && !is_listed(manifest.added, k, p) && tombstone_for(p, source) is Some ==> folded(
                live,
                manifest,
                source,
            ).tombstones.contains_key(p),
{
    let grown = with_added(live.files, manifest.added, live.tombstones.dom());
    removals_bury(grown, live.tombstones, manifest.removed, source, p);
    assert forall|k: (DbId, TableId)| #[trigger]
        is_listed(manifest.removed, k, p) && !has_path(files_of(live.files, k), p) && !is_listed(
            manifest.added,
            k,
            p,
        ) && tombstone_for(p, source) is Some implies folded(
        live,
        manifest,
        source,
    ).tombstones.contains_key(p) by {
        adds_are_listed(live.files, manifest.added, live.tombstones.dom(), k, p);
    }
}

/// What `adds` adds and `removes` removes agrees: a path of both belongs to one table, is not
/// there yet, is not added by `removes` too, and its removal leaves a tombstone.
pub open spec fn may_arrive_late(
    live: LiveFiles,
    adds: Manifest,
    removes: Manifest,
    source: Option<Seq<char>>,
) -> bool {
    forall|k: (DbId, TableId), k2: (DbId, TableId), p: Seq<char>|
        #[trigger] is_listed(adds.added, k, p) && #[trigger] is_listed(removes.removed, k2, p)
            ==> k == k2 && !has_path(files_of(live.files, k), p) && !is_listed(removes.added, k, p)
            && tombstone_for(p, source) is Some
}

/// The fold does not depend on the order of two manifests, be they of writers or of
/// compactions: both orders leave the same paths in each table.
pub proof fn fold_is_order_independent(
    live: LiveFiles,
    a: Manifest,
    a_source: Option<Seq<char>>,
    b: Manifest,
    b_source: Option<Seq<char>>,
    key: (DbId, TableId),
    p: Seq<char>,
)
    requires
        may_arrive_late(live, a, b, b_source),
        may_arrive_late(live, b, a, a_source),
    ensures
        has_path(
            files_of(folded(folded(live, a, a_source), b, b_source).files, key),
            p,
        ) == has_path(files_of(folded(folded(live, b, b_source), a, a_source).files, key), p),
{
    let with_a = folded(live, a, a_source);
    let with_b = folded(live, b, b_source);
    folded_path(live, a, a_source, key, p);
    folded_path(live, b, b_source, key, p);
    folded_path(with_a, b, b_source, key, p);
    folded_path(with_b, a, a_source, key, p);
    folded_tombstone(live, a, a_source, p);
    folded_tombstone(live, b, b_source, p);
}

/// A manifest that arrives, and the compaction that it is of, if it is of one.
pub struct Arrival {
    pub manifest: Manifest,
    pub source: Option<Seq<char>>,
}

/// The live files and the tombstones once manifests have arrived, one after another.
pub open spec fn folded_all(live: LiveFiles, list: Seq<Arrival>) -> LiveFiles
    decreases list.len(),
{
    if list.len() == 0 {
        live
    } else {
        folded(folded_all(live, list.drop_last()), list.last().manifest, list.last().source)
    }
}

/// One of the manifests adds the path to the table.
pub open spec fn is_added(list: Seq<Arrival>, key: (DbId, TableId), p: Seq<char>) -> bool {
    exists|i: int| 0 <= i < list.len() && is_listed((#[trigger] list[i]).manifest.added, key, p)
}

/// One of the manifests removes the path from the table.
pub open spec fn is_removed(list: Seq<Arrival>, key: (DbId, TableId), p: Seq<char>) -> bool {
    exists|i: int| 0 <= i < list.len() && is_listed((#[trigger] list[i]).manifest.removed, key, p)
}

/// The path is written once: where it is removed, no more than one of the manifests adds it;
/// and where another one removes it, that is from the same table, in which it is not yet, and
/// the removal can leave a tombstone.
pub open spec fn is_written_once(live: LiveFiles, list: Seq<Arrival>, p: Seq<char>) -> bool {
    &&& forall|i: int, j: int, k: (DbId, TableId), k2: (DbId, TableId)|
        #![trigger
            is_listed(list[i].manifest.added, k, p),
            is_listed(list[j].manifest.removed, k2, p)]
        0 <= i < list.len() && 0 <= j < list.len() && i != j && is_listed(
            list[i].manifest.added,
            k,
            p,
        ) && is_listed(list[j].manifest.removed, k2, p) ==> k == k2 && !has_path(
            files_of(live.files, k),
            p,
        ) && tombstone_for(p, list[j].source) is Some
    &&& forall|i: int, j: int, k: (DbId, TableId), k2: (DbId, TableId), k3: (DbId, TableId)|
        #![trigger
            is_listed(list[i].manifest.added, k, p),
            is_listed(list[j].manifest.added, k2, p),
            is_removed(list, k3, p)]
        0 <= i < list.len() && 0 <= j < list.len() && is_listed(list[i].manifest.added, k, p)
            && is_listed(list[j].manifest.added, k2, p) && is_removed(list, k3, p) ==> i == j
}

proof fn arrivals_of_last(list: Seq<Arrival>, key: (DbId, TableId), p: Seq<char>)
    requires
        list.len() > 0,
    ensures
        is_added(list, key, p) == (is_added(list.drop_last(), key, p) || is_listed(
            list.last().manifest.added,
            key,
            p,
        )),
        is_removed(list, key, p) == (is_removed(list.drop_last(), key, p) || is_listed(
            list.last().manifest.removed,
            key,
            p,
        )),
{
    let rest = list.drop_last();
    let n = list.len() - 1;
    assert(list[n] == list.last());
    if is_added(rest, key, p) {
        let i = choose|i: int|
            0 <= i < rest.len() && is_listed((#[trigger] rest[i]).manifest.added, key, p);
        assert(list[i] == rest[i]);
    }
    if is_removed(rest, key, p) {
        let i = choose|i: int|
            0 <= i < rest.len() && is_listed((#[trigger] rest[i]).manifest.removed, key, p);
        assert(list[i] == rest[i]);
    }
    if is_added(list, key, p) {
        let i = choose|i: int|
            0 <= i < list.len() && is_listed((#[trigger] list[i]).manifest.added, key, p);
        if i < n {
            assert(rest[i] == list[i]);
        }
    }
    if is_removed(list, key, p) {
        let i = choose|i: int|
            0 <= i < list.len() && is_listed((#[trigger] list[i]).manifest.removed, key, p);
        if i < n {
            assert(rest[i] == list[i]);
        }
    }
}

/// Tombstones come from removals alone.
proof fn tombstones_come_from_removals(live: LiveFiles, list: Seq<Arrival>, p: Seq<char>)
    ensures
        live.tombstones.contains_key(p) ==> folded_all(live, list).tombstones.contains_key(p),
        folded_all(live, list).tombstones.contains_key(p) && !live.tombstones.contains_key(p)
            ==> exists|k: (DbId, TableId)| #[trigger] is_removed(list, k, p),
    decreases list.len(),
{
    if list.len() > 0 {
        let rest = list.drop_last();
        let before = folded_all(live, rest);
        let last = list.last();
        tombstones_come_from_removals(live, rest, p);
        folded_tombstone(before, last.manifest, last.source, p);
        if folded_all(live, list).tombstones.contains_key(p) && !live.tombstones.contains_key(p) {
            if before.tombstones.contains_key(p) {
                let k = choose|k: (DbId, TableId)| #[trigger] is_removed(rest, k, p);
                arrivals_of_last(list, k, p);
                assert(is_removed(list, k, p));
            } else {
                let k = choose|k: (DbId, TableId)| #[trigger]
                    is_listed(last.manifest.removed, k, p);
                arrivals_of_last(list, k, p);
                assert(is_removed(list, k, p));
            }
        }
    }
}

/// A path that is not in a table does not come into it unless a manifest adds it, and a removal
/// that finds it absent leaves a tombstone.
proof fn absent_path_is_buried(
    live: LiveFiles,
    list: Seq<Arrival>,
    key: (DbId, TableId),
    p: Seq<char>,
)
    requires
        !has_path(files_of(live.files, key), p),
        !is_added(list, key, p),
        forall|j: int|
            0 <= j < list.len() && is_listed((#[trigger] list[j]).manifest.removed, key, p)
                ==> tombstone_for(p, list[j].source) is Some,
    ensures
        !has_path(files_of(folded_all(live, list).files, key), p),
        is_removed(list, key, p) ==> folded_all(live, list).tombstones.contains_key(p),
    decreases list.len(),
{
    if list.len() > 0 {
        let rest = list.drop_last();
        let before = folded_all(live, rest);
        let last = list.last();
        arrivals_of_last(list, key, p);
        assert forall|j: int|
            0 <= j < rest.len() && is_listed(
                (#[trigger] rest[j]).manifest.removed,
                key,
                p,
            ) implies tombstone_for(p, rest[j].source) is Some by {
            assert(list[j] == rest[j]);
        }
        assert(list[list.len() - 1] == last);
        absent_path_is_buried(live, rest, key, p);
        folded_path(before, last.manifest, last.source, key, p);
        folded_tombstone(before, last.manifest, last.source, p);
    }
}

proof fn written_once_so_far(live: LiveFiles, list: Seq<Arrival>, p: Seq<char>)
    requires
        list.len() > 0,
        is_written_once(live, list, p),
    ensures
        is_written_once(live, list.drop_last(), p),
{
    let rest = list.drop_last();
    assert forall|i: int, j: int, k: (DbId, TableId), k2: (DbId, TableId)|
        #![trigger
            is_listed(rest[i].manifest.added, k, p),
            is_listed(rest[j].manifest.removed, k2, p)]
        0 <= i < rest.len() && 0 <= j < rest.len() && i != j && is_listed(
            rest[i].manifest.added,
            k,
            p,
        ) && is_listed(rest[j].manifest.removed, k2, p) implies k == k2 && !has_path(
        files_of(live.files, k),
        p,
    ) && tombstone_for(p, rest[j].source) is Some by {
        assert(list[i] == rest[i] && list[j] == rest[j]);
        assert(is_listed(list[i].manifest.added, k, p));
        assert(is_listed(list[j].manifest.removed, k2, p));
    }
    assert forall|i: int, j: int, k: (DbId, TableId), k2: (DbId, TableId), k3: (DbId, TableId)|
        #![trigger
            is_listed(rest[i].manifest.added, k, p),
            is_listed(rest[j].manifest.added, k2, p),
            is_removed(rest, k3, p)]
        0 <= i < rest.len() && 0 <= j < rest.len() && is_listed(rest[i].manifest.added, k, p)
            && is_listed(rest[j].manifest.added, k2, p) && is_removed(rest, k3, p) implies i
        == j by {
        assert(list[i] == rest[i] && list[j] == rest[j]);
        arrivals_of_last(list, k3, p);
        assert(is_listed(list[i].manifest.added, k, p));
        assert(is_listed(list[j].manifest.added, k2, p));
        assert(is_removed(list, k3, p));
    }
}

/// What a table holds of a path that is written once, whatever the order in which the manifests
/// arrived: it does if it held the path before or a manifest adds it, for want of a tombstone,
/// and no manifest removes it.
pub proof fn arrivals_give_paths(
    live: LiveFiles,
    list: Seq<Arrival>,
    key: (DbId, TableId),
    p: Seq<char>,
)
    requires
        is_written_once(live, list, p),
    ensures
        has_path(files_of(folded_all(live, list).files, key), p) == ((has_path(
            files_of(live.files, key),
            p,
        ) || (is_added(list, key, p) && !live.tombstones.contains_key(p))) && !is_removed(
            list,
            key,
            p,
        )),
    decreases list.len(),
{
    if list.len() > 0 {
        let rest = list.drop_last();
        let before = folded_all(live, rest);
        let last = list.last();
        let n = list.len() - 1;
        assert(list[n] == last);
        written_once_so_far(live, list, p);
        arrivals_give_paths(live, rest, key, p);
        arrivals_of_last(list, key, p);
        folded_path(before, last.manifest, last.source, key, p);
        tombstones_come_from_removals(live, rest, p);
        if is_listed(last.manifest.added, key, p) && !is_listed(last.manifest.removed, key, p) {
            assert(is_listed(list[n].manifest.added, key, p));
            if exists|k: (DbId, TableId)| #[trigger] is_removed(rest, k, p) {
                let k = choose|k: (DbId, TableId)| #[trigger] is_removed(rest, k, p);
                let j = choose|j: int|
                    0 <= j < rest.len() && is_listed((#[trigger] rest[j]).manifest.removed, k, p);
                assert(list[j] == rest[j]);
                assert(is_listed(list[j].manifest.removed, k, p));
                assert(k == key);
                arrivals_of_last(list, key, p);
                assert(is_removed(list, key, p));
                if is_added(rest, key, p) {
                    let i = choose|i: int|
                        0 <= i < rest.len() && is_listed(
                            (#[trigger] rest[i]).manifest.added,
                            key,
                            p,
                        );
                    assert(list[i] == rest[i]);
                    assert(is_listed(list[i].manifest.added, key, p));
                    assert(i == n);
                }
                assert forall|m: int|
                    0 <= m < rest.len() && is_listed(
                        (#[trigger] rest[m]).manifest.removed,
                        key,
                        p,
                    ) implies tombstone_for(p, rest[m].source) is Some by {
                    assert(list[m] == rest[m]);
                    assert(is_listed(list[m].manifest.removed, key, p));
                }
                absent_path_is_buried(live, rest, key, p);
            }
        }
    }
}

/// `two` is `one` in another order: position `n` of it is position `at[n]` of `one`, and each
/// position `i` of `one` is at `back[i]`.
pub open spec fn is_rearranged(
    one: Seq<Arrival>,
    two: Seq<Arrival>,
    at: Seq<int>,
    back: Seq<int>,
) -> bool {
    &&& two.len() == one.len() && at.len() == one.len() && back.len() == one.len()
    &&& forall|n: int|
        0 <= n < at.len() ==> 0 <= #[trigger] at[n] < one.len() && two[n] == one[at[n]]
            && back[at[n]] == n
    &&& forall|i: int|
        0 <= i < back.len() ==> 0 <= #[trigger] back[i] < two.len() && at[back[i]] == i
}

proof fn rearranged_arrivals(
    one: Seq<Arrival>,
    two: Seq<Arrival>,
    at: Seq<int>,
    back: Seq<int>,
    key: (DbId, TableId),
    p: Seq<char>,
)
    requires
        is_rearranged(one, two, at, back),
    ensures
        is_added(one, key, p) == is_added(two, key, p),
        is_removed(one, key, p) == is_removed(two, key, p),
{
    if is_added(one, key, p) {
        let i = choose|i: int|
            0 <= i < one.len() && is_listed((#[trigger] one[i]).manifest.added, key, p);
        assert(two[back[i]] == one[at[back[i]]]);
    }
    if is_removed(one, key, p) {
        let i = choose|i: int|
            0 <= i < one.len() && is_listed((#[trigger] one[i]).manifest.removed, key, p);
        assert(two[back[i]] == one[at[back[i]]]);
    }
    if is_added(two, key, p) {
        let n = choose|n: int|
            0 <= n < two.len() && is_listed((#[trigger] two[n]).manifest.added, key, p);
        assert(two[n] == one[at[n]]);
    }
    if is_removed(two, key, p) {
        let n = choose|n: int|
            0 <= n < two.len() && is_listed((#[trigger] two[n]).manifest.removed, key, p);
        assert(two[n] == one[at[n]]);
    }
}

/// Any number of manifests, in any two orders, leave a path that is written once in the same
/// tables.
pub proof fn arrivals_are_order_independent(
    live: LiveFiles,
    one: Seq<Arrival>,
    two: Seq<Arrival>,
    at: Seq<int>,
    back: Seq<int>,
    key: (DbId, TableId),
    p: Seq<char>,
)
    requires
        is_written_once(live, one, p),
        is_rearranged(one, two, at, back),
    ensures
        has_path(files_of(folded_all(live, one).files, key), p) == has_path(
            files_of(folded_all(live, two).files, key),
            p,
        ),
{
    assert(is_written_once(live, two, p)) by {
        assert forall|i: int, j: int, k: (DbId, TableId), k2: (DbId, TableId)|
            #![trigger
                is_listed(two[i].manifest.added, k, p),
                is_listed(two[j].manifest.removed, k2, p)]
            0 <= i < two.len() && 0 <= j < two.len() && i != j && is_listed(
                two[i].manifest.added,
                k,
                p,
            ) && is_listed(two[j].manifest.removed, k2, p) implies k == k2 && !has_path(
            files_of(live.files, k),
            p,
        ) && tombstone_for(p, two[j].source) is Some by {
            assert(two[i] == one[at[i]] && two[j] == one[at[j]]);
            assert(is_listed(one[at[i]].manifest.added, k, p));
            assert(is_listed(one[at[j]].manifest.removed, k2, p));
        }
        assert forall|i: int, j: int, k: (DbId, TableId), k2: (DbId, TableId), k3: (DbId, TableId)|
            #![trigger
                is_listed(two[i].manifest.added, k, p),
                is_listed(two[j].manifest.added, k2, p),
                is_removed(two, k3, p)]
            0 <= i < two.len() && 0 <= j < two.len() && is_listed(two[i].manifest.added, k, p)
                && is_listed(two[j].manifest.added, k2, p) && is_removed(two, k3, p) implies i
            == j by {
            rearranged_arrivals(one, two, at, back, k3, p);
            assert(two[i] == one[at[i]] && two[j] == one[at[j]]);
            assert(is_listed(one[at[i]].manifest.added, k, p));
            assert(is_listed(one[at[j]].manifest.added, k2, p));
            assert(is_removed(one, k3, p));
        }
    }
    arrivals_give_paths(live, one, key, p);
    arrivals_give_paths(live, two, key, p);
    rearranged_arrivals(one, two, at, back, key, p);
}

} // verus!

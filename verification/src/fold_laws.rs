//! What holds of every fold.

use vstd::prelude::*;

use crate::collections::{FileMap, TombstoneMap};
use crate::files::{has_path, path_set, DbId, Manifest, ParquetFile, TableEntry, TableId};
use crate::fold::{
    accepted, buried, files_of, fold_joins, folded, joining, with_added, with_buried,
    with_removed, without, LiveFiles,
};
use crate::text::first_segment;
use crate::tombstone::tombstone_for;

verus! {

proof fn has_path_concat(a: Seq<ParquetFile>, b: Seq<ParquetFile>, p: Seq<char>)
    ensures
        has_path(a + b, p) == (has_path(a, p) || has_path(b, p)),
{
    if has_path(a, p) {
        let i = choose|i: int| 0 <= i < a.len() && (#[trigger] a[i]).path@ == p;
        assert((a + b)[i].path@ == p);
    }
    if has_path(b, p) {
        let i = choose|i: int| 0 <= i < b.len() && (#[trigger] b[i]).path@ == p;
        assert((a + b)[a.len() + i].path@ == p);
    }
    if has_path(a + b, p) {
        let i = choose|i: int| 0 <= i < (a + b).len() && (#[trigger] (a + b)[i]).path@ == p;
        if i < a.len() {
            assert(a[i].path@ == p);
        } else {
            assert(b[i - a.len()].path@ == p);
        }
    }
}

/// The paths of a list with one more file.
pub proof fn has_path_push(a: Seq<ParquetFile>, f: ParquetFile, p: Seq<char>)
    ensures
        has_path(a.push(f), p) == (has_path(a, p) || f.path@ == p),
{
    let b = seq![f];
    assert(a.push(f) =~= a + b);
    has_path_concat(a, b, p);
    assert(b[0].path@ == f.path@);
}

/// The paths that are left when some are taken out.
pub proof fn has_path_without(files: Seq<ParquetFile>, paths: Set<Seq<char>>, p: Seq<char>)
    ensures
        has_path(without(files, paths), p) == (has_path(files, p) && !paths.contains(p)),
    decreases files.len(),
{
    reveal(Seq::filter);
    if files.len() > 0 {
        let rest = files.drop_last();
        has_path_without(rest, paths, p);
        has_path_push(rest, files.last(), p);
        assert(rest.push(files.last()) =~= files);
        has_path_push(without(rest, paths), files.last(), p);
    }
}

proof fn without_concat(a: Seq<ParquetFile>, b: Seq<ParquetFile>, paths: Set<Seq<char>>)
    ensures
        without(a + b, paths) == without(a, paths) + without(b, paths),
    decreases b.len(),
{
    reveal(Seq::filter);
    if b.len() == 0 {
        assert(a + b =~= a);
        assert(without(a, paths) + without(b, paths) =~= without(a, paths));
    } else {
        without_concat(a, b.drop_last(), paths);
        assert((a + b).drop_last() =~= a + b.drop_last());
        assert(without(a + b, paths) =~= without(a, paths) + without(b, paths));
    }
}

proof fn without_twice(files: Seq<ParquetFile>, x: Set<Seq<char>>, y: Set<Seq<char>>)
    ensures
        without(without(files, x), y) == without(files, x.union(y)),
    decreases files.len(),
{
    reveal(Seq::filter);
    if files.len() > 0 {
        without_twice(files.drop_last(), x, y);
        let rest = without(files.drop_last(), x);
        if !x.contains(files.last().path@) {
            assert(rest.push(files.last()).drop_last() =~= rest);
        }
    }
}

proof fn without_nothing(files: Seq<ParquetFile>)
    ensures
        without(files, Set::empty()) == files,
    decreases files.len(),
{
    reveal(Seq::filter);
    if files.len() > 0 {
        without_nothing(files.drop_last());
        assert(files.drop_last().push(files.last()) =~= files);
    } else {
        assert(files =~= Seq::empty());
    }
}

proof fn accepted_paths(
    existing: Seq<ParquetFile>,
    new: Seq<ParquetFile>,
    suppressed: Set<Seq<char>>,
    p: Seq<char>,
)
    ensures
        has_path(accepted(existing, new, suppressed), p) == (has_path(new, p)
            && !suppressed.contains(p) && !has_path(existing, p)),
    decreases new.len(),
{
    if new.len() > 0 {
        let before = accepted(existing, new.drop_last(), suppressed);
        let f = new.last();
        accepted_paths(existing, new.drop_last(), suppressed, p);
        assert(new.drop_last().push(f) =~= new);
        has_path_push(new.drop_last(), f, p);
        has_path_push(before, f, p);
        has_path_concat(existing, before, f.path@);
        accepted_paths(existing, new.drop_last(), suppressed, f.path@);
    }
}

/// The path is listed for the table.
pub open spec fn is_listed(list: Seq<TableEntry>, key: (DbId, TableId), p: Seq<char>) -> bool {
    exists|i: int|
        0 <= i < list.len() && (#[trigger] list[i]).key == key && has_path(list[i].files, p)
}

/// What the last entry adds to what is listed.
pub proof fn is_listed_last(list: Seq<TableEntry>, key: (DbId, TableId), p: Seq<char>)
    requires
        list.len() > 0,
    ensures
        is_listed(list, key, p) == (is_listed(list.drop_last(), key, p) || (list.last().key == key
            && has_path(list.last().files, p))),
{
    let rest = list.drop_last();
    if is_listed(rest, key, p) {
        let i = choose|i: int|
            0 <= i < rest.len() && (#[trigger] rest[i]).key == key && has_path(rest[i].files, p);
        assert(list[i] == rest[i]);
    }
    if list.last().key == key && has_path(list.last().files, p) {
        assert(list[list.len() - 1].key == key);
    }
    if is_listed(list, key, p) {
        let i = choose|i: int|
            0 <= i < list.len() && (#[trigger] list[i]).key == key && has_path(list[i].files, p);
        if i < rest.len() {
            assert(rest[i].key == key);
        }
    }
}

/// The paths that are listed for the table.
pub open spec fn listed_paths(list: Seq<TableEntry>, key: (DbId, TableId)) -> Set<Seq<char>> {
    Set::new(|p: Seq<char>| is_listed(list, key, p))
}

/// A removal takes the paths that it lists for a table out of that table, and
/// touches nothing else.
pub proof fn removal_is_by_path(files: FileMap, removed: Seq<TableEntry>, key: (DbId, TableId))
    ensures
        with_removed(files, removed).dom() == files.dom(),
        files_of(with_removed(files, removed), key) == without(
            files_of(files, key),
            listed_paths(removed, key),
        ),
    decreases removed.len(),
{
    let all = listed_paths(removed, key);
    if removed.len() == 0 {
        assert(all =~= Set::empty());
        without_nothing(files_of(files, key));
    } else {
        let rest = removed.drop_last();
        let entry = removed.last();
        let before = with_removed(files, rest);
        removal_is_by_path(files, rest, key);
        removal_is_by_path(files, rest, entry.key);
        assert(with_removed(files, removed).dom() =~= files.dom());
        assert forall|p: Seq<char>| #[trigger] all.contains(p) == (listed_paths(rest, key).contains(
            p,
        ) || (entry.key == key && path_set(entry.files).contains(p))) by {
            is_listed_last(removed, key, p);
        }
        if entry.key == key {
            without_twice(files_of(files, key), listed_paths(rest, key), path_set(entry.files));
            assert(listed_paths(rest, key).union(path_set(entry.files)) =~= all);
            if !before.contains_key(key) {
                reveal(Seq::filter);
            }
        } else {
            assert(listed_paths(rest, key) =~= all);
        }
    }
}

/// An add brings a path into a table only where it is listed for the table and
/// has no tombstone.
pub proof fn adds_are_listed(
    files: FileMap,
    added: Seq<TableEntry>,
    suppressed: Set<Seq<char>>,
    key: (DbId, TableId),
    p: Seq<char>,
)
    ensures
        has_path(files_of(with_added(files, added, suppressed), key), p) == (has_path(
            files_of(files, key),
            p,
        ) || (is_listed(added, key, p) && !suppressed.contains(p))),
    decreases added.len(),
{
    if added.len() > 0 {
        let rest = added.drop_last();
        let entry = added.last();
        let before = with_added(files, rest, suppressed);
        let existing = files_of(before, entry.key);
        adds_are_listed(files, rest, suppressed, key, p);
        is_listed_last(added, key, p);
        if entry.key == key {
            has_path_concat(existing, accepted(existing, entry.files, suppressed), p);
            accepted_paths(existing, entry.files, suppressed, p);
        }
    }
}

/// What burying targets does to one path.
pub proof fn buried_paths(
    tombstones: TombstoneMap,
    existing: Seq<ParquetFile>,
    targets: Seq<ParquetFile>,
    source: Option<Seq<char>>,
    p: Seq<char>,
)
    ensures
        buried(tombstones, existing, targets, source).contains_key(p) == (tombstones.contains_key(p)
            || (has_path(targets, p) && !has_path(existing, p) && tombstone_for(p, source) is Some)),
        ({
            let after = buried(tombstones, existing, targets, source);
            after.contains_key(p) ==> after[p] == if has_path(targets, p) && !has_path(existing, p)
                && tombstone_for(p, source) is Some {
                tombstone_for(p, source)->0
            } else {
                tombstones[p]
            }
        }),
    decreases targets.len(),
{
    if targets.len() > 0 {
        let rest = targets.drop_last();
        buried_paths(tombstones, existing, rest, source, p);
        has_path_push(rest, targets.last(), p);
        assert(rest.push(targets.last()) =~= targets);
    }
}

/// Tombstones are only ever added by a removal, and only for a path that it lists.
pub proof fn removals_bury(
    files: FileMap,
    tombstones: TombstoneMap,
    removed: Seq<TableEntry>,
    source: Option<Seq<char>>,
    p: Seq<char>,
)
    ensures
        tombstones.contains_key(p) ==> with_buried(
            files,
            tombstones,
            removed,
            source,
        ).contains_key(p),
        with_buried(files, tombstones, removed, source).contains_key(p) && !tombstones.contains_key(
            p,
        ) ==> exists|key: (DbId, TableId)| #[trigger] is_listed(removed, key, p),
        forall|key: (DbId, TableId)| #[trigger]
            is_listed(removed, key, p) && !has_path(files_of(files, key), p) && tombstone_for(
                p,
                source,
            ) is Some ==> with_buried(files, tombstones, removed, source).contains_key(p),
    decreases removed.len(),
{
    if removed.len() > 0 {
        let rest = removed.drop_last();
        let entry = removed.last();
        let before = with_buried(files, tombstones, rest, source);
        let existing = files_of(with_removed(files, rest), entry.key);
        removals_bury(files, tombstones, rest, source, p);
        buried_paths(before, existing, entry.files, source, p);
        is_listed_last(removed, entry.key, p);
        if with_buried(files, tombstones, removed, source).contains_key(p)
            && !tombstones.contains_key(p) {
            if before.contains_key(p) {
                let key = choose|key: (DbId, TableId)| #[trigger] is_listed(rest, key, p);
                is_listed_last(removed, key, p);
            } else {
                assert(is_listed(removed, entry.key, p));
            }
        }
        assert forall|key: (DbId, TableId)| #[trigger]
            is_listed(removed, key, p) && !has_path(files_of(files, key), p) && tombstone_for(
                p,
                source,
            ) is Some implies with_buried(files, tombstones, removed, source).contains_key(p) by {
            is_listed_last(removed, key, p);
            if !is_listed(rest, key, p) {
                removal_is_by_path(files, rest, key);
                has_path_without(files_of(files, key), listed_paths(rest, key), p);
            }
        }
    }
}

/// A path with a tombstone does not come into any table.
pub proof fn tombstone_suppresses_add(
    live: LiveFiles,
    manifest: Manifest,
    source: Option<Seq<char>>,
    key: (DbId, TableId),
    p: Seq<char>,
)
    requires
        live.tombstones.contains_key(p),
        !has_path(files_of(live.files, key), p),
    ensures
        !has_path(files_of(folded(live, manifest, source).files, key), p),
        folded(live, manifest, source).tombstones.contains_key(p),
{
    let grown = with_added(live.files, manifest.added, live.tombstones.dom());
    adds_are_listed(live.files, manifest.added, live.tombstones.dom(), key, p);
    removal_is_by_path(grown, manifest.removed, key);
    has_path_without(files_of(grown, key), listed_paths(manifest.removed, key), p);
    removals_bury(grown, live.tombstones, manifest.removed, source, p);
}

/// Once a manifest that removes a path from a table is folded in, no copy with
/// that path is left in the table.
pub proof fn removed_path_is_gone(
    live: LiveFiles,
    manifest: Manifest,
    source: Option<Seq<char>>,
    key: (DbId, TableId),
    p: Seq<char>,
)
    requires
        is_listed(manifest.removed, key, p),
    ensures
        !has_path(files_of(folded(live, manifest, source).files, key), p),
{
    let grown = with_added(live.files, manifest.added, live.tombstones.dom());
    removal_is_by_path(grown, manifest.removed, key);
    has_path_without(files_of(grown, key), listed_paths(manifest.removed, key), p);
}

/// A removal that arrives ahead of the add still wins: the file does not show up
/// in its table, whatever is folded next.
pub proof fn early_removal_wins(
    live: LiveFiles,
    removal: Manifest,
    source: Option<Seq<char>>,
    later: Manifest,
    later_source: Option<Seq<char>>,
    key: (DbId, TableId),
    p: Seq<char>,
)
    requires
        is_listed(removal.removed, key, p),
        !is_listed(removal.added, key, p),
        !has_path(files_of(live.files, key), p),
        tombstone_for(p, source) is Some,
    ensures
        !has_path(
            files_of(
                folded(folded(live, removal, source), later, later_source).files,
                key,
            ),
            p,
        ),
{
    let grown = with_added(live.files, removal.added, live.tombstones.dom());
    adds_are_listed(live.files, removal.added, live.tombstones.dom(), key, p);
    removals_bury(grown, live.tombstones, removal.removed, source, p);
    removed_path_is_gone(live, removal, source, key, p);
    tombstone_suppresses_add(folded(live, removal, source), later, later_source, key, p);
}

proof fn accepted_commutes(
    existing: Seq<ParquetFile>,
    new: Seq<ParquetFile>,
    suppressed: Set<Seq<char>>,
    gone: Set<Seq<char>>,
    suppressed_after: Set<Seq<char>>,
)
    requires
        forall|p: Seq<char>|
            has_path(new, p) ==> (#[trigger] suppressed_after.contains(p) <==> suppressed.contains(
                p,
            ) || gone.contains(p)),
    ensures
        without(accepted(existing, new, suppressed), gone) == accepted(
            without(existing, gone),
            new,
            suppressed_after,
        ),
    decreases new.len(),
{
    reveal(Seq::filter);
    if new.len() > 0 {
        let rest = new.drop_last();
        let f = new.last();
        assert(rest.push(f) =~= new);
        assert forall|p: Seq<char>| has_path(rest, p) implies (#[trigger] suppressed_after.contains(
            p,
        ) <==> suppressed.contains(p) || gone.contains(p)) by {
            has_path_push(rest, f, p);
        }
        accepted_commutes(existing, rest, suppressed, gone, suppressed_after);
        has_path_push(rest, f, f.path@);
        let before = accepted(existing, rest, suppressed);
        let path = f.path@;
        has_path_concat(existing, before, path);
        has_path_concat(without(existing, gone), without(before, gone), path);
        has_path_without(existing, gone, path);
        has_path_without(before, gone, path);
        assert(suppressed_after.contains(path) <==> suppressed.contains(path) || gone.contains(
            path,
        ));
        if !(suppressed.contains(path) || has_path(existing + before, path)) {
            assert(before.push(f).drop_last() =~= before);
        }
    }
}

/// `adds` and `removes` speak of the same files consistently: a path that both
/// name belongs to one table, is not there yet, and its removal leaves a
/// tombstone.
pub open spec fn may_reorder(
    live: LiveFiles,
    adds: Manifest,
    removes: Manifest,
    source: Option<Seq<char>>,
) -> bool {
    &&& adds.removed.len() == 0
    &&& removes.added.len() == 0
    &&& forall|k: (DbId, TableId), k2: (DbId, TableId), p: Seq<char>|
        #[trigger] is_listed(adds.added, k, p) && #[trigger] is_listed(removes.removed, k2, p)
            ==> k == k2 && !has_path(files_of(live.files, k), p) && tombstone_for(p, source) is Some
}

proof fn added_then_removed(
    live: LiveFiles,
    added: Seq<TableEntry>,
    removed: Seq<TableEntry>,
    source: Option<Seq<char>>,
    key: (DbId, TableId),
)
    requires
        forall|k: (DbId, TableId), k2: (DbId, TableId), p: Seq<char>|
            #[trigger] is_listed(added, k, p) && #[trigger] is_listed(removed, k2, p) ==> k == k2
                && !has_path(files_of(live.files, k), p) && tombstone_for(p, source) is Some,
    ensures
        ({
            let stones = with_buried(live.files, live.tombstones, removed, source);
            &&& without(
                files_of(with_added(live.files, added, live.tombstones.dom()), key),
                listed_paths(removed, key),
            ) == files_of(
                with_added(with_removed(live.files, removed), added, stones.dom()),
                key,
            )
            &&& with_added(live.files, added, live.tombstones.dom()).dom() == with_added(
                with_removed(live.files, removed),
                added,
                stones.dom(),
            ).dom()
        }),
    decreases added.len(),
{
    let stones = with_buried(live.files, live.tombstones, removed, source);
    removal_is_by_path(live.files, removed, key);
    if added.len() > 0 {
        let rest = added.drop_last();
        let entry = added.last();
        assert forall|k: (DbId, TableId), k2: (DbId, TableId), p: Seq<char>|
            #[trigger] is_listed(rest, k, p) && #[trigger] is_listed(removed, k2, p) implies k == k2
            && !has_path(files_of(live.files, k), p) && tombstone_for(p, source) is Some by {
            is_listed_last(added, k, p);
        }
        added_then_removed(live, rest, removed, source, key);
        added_then_removed(live, rest, removed, source, entry.key);
        let before = with_added(live.files, rest, live.tombstones.dom());
        let before2 = with_added(with_removed(live.files, removed), rest, stones.dom());
        let existing = files_of(before, entry.key);
        let gone = listed_paths(removed, entry.key);
        assert(with_added(live.files, added, live.tombstones.dom()).dom() =~= with_added(
            with_removed(live.files, removed),
            added,
            stones.dom(),
        ).dom());
        if entry.key == key {
            assert forall|p: Seq<char>| has_path(entry.files, p) implies (
            #[trigger] stones.dom().contains(p) <==> live.tombstones.dom().contains(p)
                || gone.contains(p)) by {
                removals_bury(live.files, live.tombstones, removed, source, p);
                is_listed_last(added, entry.key, p);
                assert(is_listed(added, entry.key, p));
                if stones.contains_key(p) && !live.tombstones.contains_key(p) {
                    let k2 = choose|k2: (DbId, TableId)| #[trigger] is_listed(removed, k2, p);
                    assert(entry.key == k2);
                }
                if gone.contains(p) {
                    assert(is_listed(removed, entry.key, p));
                }
            }
            accepted_commutes(
                existing,
                entry.files,
                live.tombstones.dom(),
                gone,
                stones.dom(),
            );
            without_concat(
                existing,
                accepted(existing, entry.files, live.tombstones.dom()),
                gone,
            );
        }
    }
}

/// A manifest that only adds and one that only removes can be folded in either order: both
/// leave the same files live, in the same order.
pub proof fn adds_and_removals_commute(
    live: LiveFiles,
    adds: Manifest,
    adds_source: Option<Seq<char>>,
    removes: Manifest,
    source: Option<Seq<char>>,
)
    requires
        may_reorder(live, adds, removes, source),
    ensures
        folded(folded(live, adds, adds_source), removes, source).files == folded(
            folded(live, removes, source),
            adds,
            adds_source,
        ).files,
{
    let one = folded(folded(live, adds, adds_source), removes, source).files;
    let two = folded(folded(live, removes, source), adds, adds_source).files;
    let grown = with_added(live.files, adds.added, live.tombstones.dom());
    let shrunk = with_removed(live.files, removes.removed);
    let stones = with_buried(live.files, live.tombstones, removes.removed, source);
    assert(with_added(live.files, removes.added, live.tombstones.dom()) == live.files);
    assert(folded(live, adds, adds_source).files == grown);
    assert(folded(live, adds, adds_source).tombstones == live.tombstones);
    assert(with_added(grown, removes.added, live.tombstones.dom()) == grown);
    assert(one == with_removed(grown, removes.removed));
    assert(two == with_added(shrunk, adds.added, stones.dom()));
    assert forall|k: (DbId, TableId)| files_of(one, k) == files_of(two, k) && one.contains_key(k)
        == two.contains_key(k) by {
        added_then_removed(live, adds.added, removes.removed, source, k);
        removal_is_by_path(grown, removes.removed, k);
    }
    assert(one =~= two) by {
        assert forall|k: (DbId, TableId)| one.contains_key(k) == two.contains_key(k) by {
            assert(files_of(one, k) == files_of(two, k) && one.contains_key(k) == two.contains_key(
                k,
            ));
        }
        assert forall|k: (DbId, TableId)| one.contains_key(k) implies one[k] == two[k] by {
            assert(files_of(one, k) == files_of(two, k));
        }
    }
}

/// No path occurs twice in a table.
pub open spec fn unique_paths(files: Seq<ParquetFile>) -> bool {
    forall|i: int, j: int| 0 <= i < j < files.len() ==> files[i].path@ != files[j].path@
}

/// No path occurs twice in any table.
pub open spec fn all_unique(files: FileMap) -> bool {
    forall|k: (DbId, TableId)| #[trigger] files.contains_key(k) ==> unique_paths(files[k])
}

proof fn accepted_unique(
    existing: Seq<ParquetFile>,
    new: Seq<ParquetFile>,
    suppressed: Set<Seq<char>>,
)
    requires
        unique_paths(existing),
    ensures
        unique_paths(existing + accepted(existing, new, suppressed)),
    decreases new.len(),
{
    if new.len() == 0 {
        assert(existing + accepted(existing, new, suppressed) =~= existing);
    } else {
        accepted_unique(existing, new.drop_last(), suppressed);
        let before = accepted(existing, new.drop_last(), suppressed);
        let all = existing + before;
        let f = new.last();
        if !(suppressed.contains(f.path@) || has_path(all, f.path@)) {
            assert(existing + before.push(f) =~= all.push(f));
            assert forall|i: int, j: int| 0 <= i < j < all.push(f).len() implies all.push(
                f,
            )[i].path@ != all.push(f)[j].path@ by {
                if j == all.len() {
                    assert(all[i].path@ != f.path@);
                }
            }
        }
    }
}

proof fn without_unique(files: Seq<ParquetFile>, paths: Set<Seq<char>>)
    requires
        unique_paths(files),
    ensures
        unique_paths(without(files, paths)),
    decreases files.len(),
{
    reveal(Seq::filter);
    if files.len() > 0 {
        let rest = files.drop_last();
        let f = files.last();
        assert forall|i: int, j: int| 0 <= i < j < rest.len() implies rest[i].path@
            != rest[j].path@ by {
            assert(rest[i] == files[i] && rest[j] == files[j]);
        }
        without_unique(rest, paths);
        if !paths.contains(f.path@) {
            let kept = without(rest, paths);
            has_path_without(rest, paths, f.path@);
            assert(!has_path(rest, f.path@)) by {
                if has_path(rest, f.path@) {
                    let i = choose|i: int|
                        0 <= i < rest.len() && (#[trigger] rest[i]).path@ == f.path@;
                    assert(files[i].path@ == files[files.len() - 1].path@);
                }
            }
            assert forall|i: int, j: int| 0 <= i < j < kept.push(f).len() implies kept.push(
                f,
            )[i].path@ != kept.push(f)[j].path@ by {
                if j == kept.len() {
                    assert(kept[i].path@ != f.path@);
                }
            }
        }
    }
}

proof fn adds_keep_unique(files: FileMap, added: Seq<TableEntry>, suppressed: Set<Seq<char>>)
    requires
        all_unique(files),
    ensures
        all_unique(with_added(files, added, suppressed)),
    decreases added.len(),
{
    if added.len() > 0 {
        adds_keep_unique(files, added.drop_last(), suppressed);
        let before = with_added(files, added.drop_last(), suppressed);
        let existing = files_of(before, added.last().key);
        accepted_unique(existing, added.last().files, suppressed);
    }
}

/// A fold adds no path to a table that has it: paths stay unique in each table.
pub proof fn fold_keeps_paths_unique(live: LiveFiles, manifest: Manifest, source: Option<Seq<char>>)
    requires
        all_unique(live.files),
    ensures
        all_unique(folded(live, manifest, source).files),
{
    let grown = with_added(live.files, manifest.added, live.tombstones.dom());
    adds_keep_unique(live.files, manifest.added, live.tombstones.dom());
    let after = folded(live, manifest, source).files;
    assert forall|k: (DbId, TableId)| #[trigger] after.contains_key(k) implies unique_paths(
        after[k],
    ) by {
        removal_is_by_path(grown, manifest.removed, k);
        without_unique(grown[k], listed_paths(manifest.removed, k));
        assert(files_of(after, k) == after[k]);
    }
}

proof fn accepted_again(
    existing: Seq<ParquetFile>,
    new: Seq<ParquetFile>,
    suppressed: Set<Seq<char>>,
)
    requires
        forall|p: Seq<char>| #[trigger]
            has_path(new, p) ==> suppressed.contains(p) || has_path(existing, p),
    ensures
        accepted(existing, new, suppressed) == Seq::<ParquetFile>::empty(),
    decreases new.len(),
{
    if new.len() > 0 {
        let rest = new.drop_last();
        assert(rest.push(new.last()) =~= new);
        assert forall|p: Seq<char>| #[trigger] has_path(rest, p) implies suppressed.contains(p)
            || has_path(existing, p) by {
            has_path_push(rest, new.last(), p);
        }
        accepted_again(existing, rest, suppressed);
        has_path_push(rest, new.last(), new.last().path@);
        assert(existing + Seq::<ParquetFile>::empty() =~= existing);
    }
}

proof fn adds_again(files: FileMap, added: Seq<TableEntry>, suppressed: Set<Seq<char>>)
    requires
        forall|k: (DbId, TableId), p: Seq<char>| #[trigger]
            is_listed(added, k, p) ==> suppressed.contains(p) || has_path(files_of(files, k), p),
        forall|i: int| 0 <= i < added.len() ==> files.contains_key((#[trigger] added[i]).key),
    ensures
        with_added(files, added, suppressed) == files,
        joining(files, added, suppressed) == Seq::<ParquetFile>::empty(),
    decreases added.len(),
{
    if added.len() > 0 {
        let rest = added.drop_last();
        let entry = added.last();
        assert forall|k: (DbId, TableId), p: Seq<char>| #[trigger]
            is_listed(rest, k, p) implies suppressed.contains(p) || has_path(
            files_of(files, k),
            p,
        ) by {
            is_listed_last(added, k, p);
        }
        assert forall|i: int| 0 <= i < rest.len() implies files.contains_key(
            (#[trigger] rest[i]).key,
        ) by {
            assert(rest[i] == added[i]);
        }
        adds_again(files, rest, suppressed);
        let existing = files_of(files, entry.key);
        assert forall|p: Seq<char>| #[trigger] has_path(entry.files, p) implies suppressed.contains(
            p,
        ) || has_path(existing, p) by {
            is_listed_last(added, entry.key, p);
        }
        accepted_again(existing, entry.files, suppressed);
        assert(files.contains_key(added[added.len() - 1].key));
        assert(existing + Seq::<ParquetFile>::empty() =~= existing);
        assert(files.insert(entry.key, existing) =~= files);
        assert(joining(files, added, suppressed) =~= Seq::<ParquetFile>::empty());
    }
}

proof fn adds_make_tables(files: FileMap, added: Seq<TableEntry>, suppressed: Set<Seq<char>>)
    ensures
        forall|i: int|
            0 <= i < added.len() ==> with_added(files, added, suppressed).contains_key(
                (#[trigger] added[i]).key,
            ),
    decreases added.len(),
{
    if added.len() > 0 {
        let rest = added.drop_last();
        adds_make_tables(files, rest, suppressed);
        assert forall|i: int| 0 <= i < added.len() implies with_added(
            files,
            added,
            suppressed,
        ).contains_key((#[trigger] added[i]).key) by {
            if i < rest.len() {
                assert(rest[i] == added[i]);
            }
        }
    }
}

/// Folding the same manifest of adds once more changes nothing, and adds nothing.
pub proof fn adds_are_idempotent(live: LiveFiles, adds: Manifest, source: Option<Seq<char>>)
    requires
        adds.removed.len() == 0,
    ensures
        folded(folded(live, adds, source), adds, source) == folded(live, adds, source),
        fold_joins(folded(live, adds, source), adds) == Seq::<ParquetFile>::empty(),
{
    let once = folded(live, adds, source);
    let suppressed = live.tombstones.dom();
    assert forall|k: (DbId, TableId), p: Seq<char>| #[trigger]
        is_listed(adds.added, k, p) implies suppressed.contains(p) || has_path(
        files_of(once.files, k),
        p,
    ) by {
        adds_are_listed(live.files, adds.added, suppressed, k, p);
    }
    adds_make_tables(live.files, adds.added, suppressed);
    adds_again(once.files, adds.added, suppressed);
}

/// Each tombstone by sequence number names the writer that its path names.
pub open spec fn well_keyed(tombstones: TombstoneMap) -> bool {
    forall|p: Seq<char>| #[trigger]
        tombstones.contains_key(p) && tombstones[p] is WalSeq ==> tombstones[p]->node_id
            == first_segment(p) && first_segment(p).len() > 0
}

/// The tombstones that a fold leaves name the writer that their path names.
pub proof fn fold_keeps_well_keyed(live: LiveFiles, manifest: Manifest, source: Option<Seq<char>>)
    requires
        well_keyed(live.tombstones),
    ensures
        well_keyed(folded(live, manifest, source).tombstones),
{
    let grown = with_added(live.files, manifest.added, live.tombstones.dom());
    burial_keeps_well_keyed(grown, live.tombstones, manifest.removed, source);
}

proof fn burial_keeps_well_keyed(
    files: FileMap,
    tombstones: TombstoneMap,
    removed: Seq<TableEntry>,
    source: Option<Seq<char>>,
)
    requires
        well_keyed(tombstones),
    ensures
        well_keyed(with_buried(files, tombstones, removed, source)),
    decreases removed.len(),
{
    if removed.len() > 0 {
        let rest = removed.drop_last();
        let entry = removed.last();
        burial_keeps_well_keyed(files, tombstones, rest, source);
        let before = with_buried(files, tombstones, rest, source);
        let existing = files_of(with_removed(files, rest), entry.key);
        let after = buried(before, existing, entry.files, source);
        assert forall|p: Seq<char>| #[trigger]
            after.contains_key(p) && after[p] is WalSeq implies after[p]->node_id == first_segment(p)
            && first_segment(p).len() > 0 by {
            buried_paths(before, existing, entry.files, source, p);
        }
    }
}

/// No live file has a path in `paths`.
pub open spec fn are_apart(files: FileMap, paths: Set<Seq<char>>) -> bool {
    forall|k: (DbId, TableId), p: Seq<char>|
        #![trigger has_path(files_of(files, k), p), paths.contains(p)]
        has_path(files_of(files, k), p) ==> !paths.contains(p)
}

/// A fold keeps live files and tombstones apart, as long as a path that is removed from one
/// table is not live in another.
pub proof fn fold_keeps_apart(live: LiveFiles, manifest: Manifest, source: Option<Seq<char>>)
    requires
        are_apart(live.files, live.tombstones.dom()),
        forall|k: (DbId, TableId), k2: (DbId, TableId), p: Seq<char>|
            #[trigger] is_listed(manifest.removed, k, p) && k2 != k ==> !#[trigger] has_path(
                files_of(
                    with_added(live.files, manifest.added, live.tombstones.dom()),
                    k2,
                ),
                p,
            ),
    ensures
        are_apart(
            folded(live, manifest, source).files,
            folded(live, manifest, source).tombstones.dom(),
        ),
{
    let after = folded(live, manifest, source);
    let grown = with_added(live.files, manifest.added, live.tombstones.dom());
    assert forall|k: (DbId, TableId), p: Seq<char>|
        #![trigger has_path(files_of(after.files, k), p), after.tombstones.dom().contains(p)]
        has_path(files_of(after.files, k), p) implies !after.tombstones.dom().contains(p) by {
        if after.tombstones.dom().contains(p) {
            removal_is_by_path(grown, manifest.removed, k);
            has_path_without(files_of(grown, k), listed_paths(manifest.removed, k), p);
            adds_are_listed(live.files, manifest.added, live.tombstones.dom(), k, p);
            removals_bury(grown, live.tombstones, manifest.removed, source, p);
            if live.tombstones.contains_key(p) {
                assert(has_path(files_of(live.files, k), p) ==> !live.tombstones.dom().contains(p));
            } else {
                let k2 = choose|k2: (DbId, TableId)| #[trigger] is_listed(manifest.removed, k2, p);
                assert(k2 != k);
            }
        }
    }
}

proof fn adds_go_behind(
    files: FileMap,
    added: Seq<TableEntry>,
    suppressed: Set<Seq<char>>,
    key: (DbId, TableId),
) -> (more: Seq<ParquetFile>)
    ensures
        files_of(with_added(files, added, suppressed), key) == files_of(files, key) + more,
    decreases added.len(),
{
    if added.len() == 0 {
        assert(files_of(files, key) + Seq::<ParquetFile>::empty() =~= files_of(files, key));
        Seq::empty()
    } else {
        let rest = added.drop_last();
        let more = adds_go_behind(files, rest, suppressed, key);
        let entry = added.last();
        if entry.key == key {
            let before = files_of(with_added(files, rest, suppressed), key);
            let new = accepted(before, entry.files, suppressed);
            assert(before + new =~= files_of(files, key) + (more + new));
            more + new
        } else {
            more
        }
    }
}

/// What a table holds once a manifest is folded in: the paths that it had and those that the
/// manifest adds to it and that have no tombstone, but for those that the manifest removes
/// from it, none of them twice. The files that stay keep their order and come before those
/// that are new.
pub proof fn fold_gives_paths(
    live: LiveFiles,
    manifest: Manifest,
    source: Option<Seq<char>>,
    key: (DbId, TableId),
)
    requires
        unique_paths(files_of(live.files, key)),
    ensures
        forall|p: Seq<char>| #[trigger]
            has_path(files_of(folded(live, manifest, source).files, key), p) == ((has_path(
                files_of(live.files, key),
                p,
            ) || (is_listed(manifest.added, key, p) && !live.tombstones.contains_key(p)))
                && !is_listed(manifest.removed, key, p)),
        unique_paths(files_of(folded(live, manifest, source).files, key)),
        exists|more: Seq<ParquetFile>|
            files_of(folded(live, manifest, source).files, key) == #[trigger] (without(
                files_of(live.files, key),
                listed_paths(manifest.removed, key),
            ) + more),
{
    let stones = live.tombstones.dom();
    let old_files = files_of(live.files, key);
    let grown = with_added(live.files, manifest.added, stones);
    let gone = listed_paths(manifest.removed, key);
    let after = files_of(folded(live, manifest, source).files, key);
    removal_is_by_path(grown, manifest.removed, key);
    assert forall|p: Seq<char>| #[trigger] has_path(after, p) == ((has_path(old_files, p) || (
    is_listed(manifest.added, key, p) && !live.tombstones.contains_key(p))) && !is_listed(
        manifest.removed,
        key,
        p,
    )) by {
        adds_are_listed(live.files, manifest.added, stones, key, p);
        has_path_without(files_of(grown, key), gone, p);
    }
    table_stays_unique(live.files, manifest.added, stones, key);
    without_unique(files_of(grown, key), gone);
    let more = adds_go_behind(live.files, manifest.added, stones, key);
    without_concat(old_files, more, gone);
    assert(after == without(old_files, gone) + without(more, gone));
}

proof fn table_stays_unique(
    files: FileMap,
    added: Seq<TableEntry>,
    suppressed: Set<Seq<char>>,
    key: (DbId, TableId),
)
    requires
        unique_paths(files_of(files, key)),
    ensures
        unique_paths(files_of(with_added(files, added, suppressed), key)),
    decreases added.len(),
{
    if added.len() > 0 {
        table_stays_unique(files, added.drop_last(), suppressed, key);
        let existing = files_of(with_added(files, added.drop_last(), suppressed), key);
        accepted_unique(existing, added.last().files, suppressed);
    }
}

} // verus!

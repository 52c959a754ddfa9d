//! What a scan and a validation pass may leave out, and what they may not.

use vstd::prelude::*;

use crate::files::{has_path, ParquetFile, TableEntry};
use crate::not_found_tolerant::{before_not_found, ErrorLink, ScanFailure};
use crate::persisted_files::FileState;
use crate::provider::{is_on_key, usable_conjuncts};
use crate::ref_validator::{
    checked_count, is_checked, is_missing, is_referenced, is_summary, missing_files,
    pass_over, paths_list, Listing, Pass, ValidationSummary,
};
use crate::text::{first_segment, segments, texts};
use crate::watermarks::{lookup_hit, lookup_miss};

verus! {

/// One of the columns has this name.
pub open spec fn has_column(columns: Seq<String>, name: Seq<char>) -> bool {
    exists|j: int| 0 <= j < columns.len() && (#[trigger] columns[j])@ == name
}

/// Every column that the conjunct refers to is one of the key.
pub open spec fn is_all_key(columns: Seq<String>, primary_key: Seq<String>) -> bool {
    forall|i: int| 0 <= i < columns.len() ==> has_column(primary_key, (#[trigger] columns[i])@)
}

/// Once duplicates are removed, a scan filters by every conjunct. Before that it filters by a
/// conjunct exactly if that is on key columns alone. The conjuncts stay in order.
pub proof fn scan_filters_by_what_it_may(
    conjuncts: Seq<Vec<String>>,
    primary_key: Seq<String>,
    deduplicated: bool,
)
    requires
        conjuncts.len() <= usize::MAX,
    ensures
        forall|k: usize|
            k < conjuncts.len() ==> #[trigger] usable_conjuncts(
                conjuncts,
                primary_key,
                deduplicated,
            ).contains(k) == (deduplicated || is_all_key(conjuncts[k as int]@, primary_key)),
        forall|n: int|
            0 <= n < usable_conjuncts(conjuncts, primary_key, deduplicated).len() ==> (
            #[trigger] usable_conjuncts(conjuncts, primary_key, deduplicated)[n] as int)
                < conjuncts.len(),
        forall|n: int, m: int|
            0 <= n < m < usable_conjuncts(conjuncts, primary_key, deduplicated).len()
                ==> usable_conjuncts(conjuncts, primary_key, deduplicated)[n] < usable_conjuncts(
                conjuncts,
                primary_key,
                deduplicated,
            )[m],
    decreases conjuncts.len(),
{
    if conjuncts.len() > 0 {
        let rest = conjuncts.drop_last();
        let last = conjuncts.len() - 1;
        let before = usable_conjuncts(rest, primary_key, deduplicated);
        let all = usable_conjuncts(conjuncts, primary_key, deduplicated);
        scan_filters_by_what_it_may(rest, primary_key, deduplicated);
        assert(conjuncts[last] == conjuncts.last());
        on_key_is_all_key(conjuncts.last()@, primary_key);
        assert forall|k: usize| k < conjuncts.len() implies #[trigger] all.contains(k) == (
        deduplicated || is_all_key(conjuncts[k as int]@, primary_key)) by {
            if (k as int) < last {
                assert(rest[k as int] == conjuncts[k as int]);
                assert(before.contains(k) == (deduplicated || is_all_key(
                    rest[k as int]@,
                    primary_key,
                )));
                if before.contains(k) {
                    let n = choose|n: int| 0 <= n < before.len() && before[n] == k;
                    assert(all[n] == k);
                }
                if all.contains(k) {
                    let n = choose|n: int| 0 <= n < all.len() && all[n] == k;
                    if n < before.len() {
                        assert(before[n] == k);
                    }
                }
            } else {
                if all.len() > before.len() {
                    assert(all[before.len() as int] == k);
                } else if all.contains(k) {
                    let n = choose|n: int| 0 <= n < all.len() && all[n] == k;
                    assert(before[n] as int == last);
                }
            }
        }
        assert forall|n: int| 0 <= n < all.len() implies (#[trigger] all[n] as int)
            < conjuncts.len() by {
            if n < before.len() {
                assert(all[n] == before[n]);
            }
        }
        assert forall|n: int, m: int| 0 <= n < m < all.len() implies all[n] < all[m] by {
            if m < before.len() {
                assert(before[n] < before[m]);
            } else {
                assert(all[n] == before[n]);
                assert((before[n] as int) < rest.len());
            }
        }
    }
}

proof fn on_key_is_all_key(columns: Seq<String>, primary_key: Seq<String>)
    ensures
        is_on_key(columns, primary_key) == is_all_key(columns, primary_key),
{
    let names = texts(primary_key);
    assert forall|i: int| 0 <= i < columns.len() implies names.contains((#[trigger] columns[i])@)
        == has_column(primary_key, columns[i]@) by {
        if names.contains(columns[i]@) {
            let j = choose|j: int| 0 <= j < names.len() && names[j] == columns[i]@;
            assert(primary_key[j]@ == columns[i]@);
        }
        if has_column(primary_key, columns[i]@) {
            let j = choose|j: int| 0 <= j < primary_key.len() && (#[trigger] primary_key[j])@
                == columns[i]@;
            assert(names[j] == columns[i]@);
        }
    }
}

/// The item is a failure that has the object's not being found among its causes.
pub open spec fn says_gone<B, E>(item: Result<B, ScanFailure<E>>) -> bool {
    item is Err && exists|c: int|
        0 <= c < item->Err_0.chain@.len() && #[trigger] item->Err_0.chain@[c]
            == ErrorLink::ObjectNotFound
}

/// A file is scanned up to where its object is found to be gone, and to its end where it is not;
/// every other failure is handed on.
pub proof fn scan_stops_only_where_the_object_is_gone<B, E>(
    items: Seq<Result<B, ScanFailure<E>>>,
) -> (n: int)
    ensures
        0 <= n <= items.len(),
        before_not_found(items) == items.take(n),
        forall|i: int| 0 <= i < n ==> !says_gone(#[trigger] items[i]),
        n < items.len() ==> says_gone(items[n]),
    decreases items.len(),
{
    if items.len() == 0 {
        assert(items.take(0) =~= Seq::empty());
        0
    } else {
        gone_is_gone(items[0]);
        if says_gone(items[0]) {
            assert(items.take(0) =~= Seq::empty());
            0
        } else {
            let rest = items.skip(1);
            let m = scan_stops_only_where_the_object_is_gone(rest);
            assert(items.take(m + 1) =~= seq![items[0]] + rest.take(m));
            assert forall|i: int| 0 <= i < m + 1 implies !says_gone(#[trigger] items[i]) by {
                if i > 0 {
                    assert(rest[i - 1] == items[i]);
                }
            }
            if m < rest.len() {
                assert(rest[m] == items[m + 1]);
            }
            m + 1
        }
    }
}

proof fn gone_is_gone<B, E>(item: Result<B, ScanFailure<E>>)
    ensures
        says_gone(item) == (item is Err && item->Err_0.is_not_found()),
{
    if item is Err && item->Err_0.is_not_found() {
        let chain = item->Err_0.chain@;
        let c = choose|c: int| 0 <= c < chain.len() && chain[c] == ErrorLink::ObjectNotFound;
        assert(item->Err_0.chain@[c] == ErrorLink::ObjectNotFound);
    }
}

/// The listing of the node that the path is under: the name of the node is what stands before
/// the first slash.
pub open spec fn is_listing_for(entry: (String, Listing), path: Seq<char>) -> bool {
    entry.0@ == segments(path)[0]
}

/// A path is taken for missing exactly if the listing of its node is there, did not fail, and
/// does not hold it.
pub proof fn missing_means_not_listed(
    listings: Seq<(String, Listing)>,
    path: Seq<char>,
    at: int,
)
    requires
        0 <= at < listings.len(),
        is_listing_for(listings[at], path),
        forall|j: int| 0 <= j < at ==> !is_listing_for(#[trigger] listings[j], path),
    ensures
        is_checked(listings, path) == (listings[at].1 is Some),
        is_missing(listings, path) == (listings[at].1 is Some && forall|n: int|
            0 <= n < listings[at].1->0@.len() ==> (#[trigger] listings[at].1->0@[n])@ != path),
{
    lookup_hit(listings, segments(path)[0], at);
    if listings[at].1 is Some {
        let paths = listings[at].1->0@;
        let names = texts(paths);
        if names.contains(path) {
            let n = choose|n: int| 0 <= n < names.len() && names[n] == path;
            assert(paths[n]@ == path);
        }
        if exists|n: int| 0 <= n < paths.len() && (#[trigger] paths[n])@ == path {
            let n = choose|n: int| 0 <= n < paths.len() && (#[trigger] paths[n])@ == path;
            assert(names[n] == path);
        }
    }
}

/// Without a listing of its node a path is neither checked nor missing.
pub proof fn nothing_is_missing_without_a_listing(
    listings: Seq<(String, Listing)>,
    path: Seq<char>,
)
    requires
        forall|j: int| 0 <= j < listings.len() ==> !is_listing_for(#[trigger] listings[j], path),
    ensures
        !is_checked(listings, path),
        !is_missing(listings, path),
{
    lookup_miss(listings, segments(path)[0]);
}

/// The node of every tracked file is listed, and no other.
pub proof fn nodes_of_tracked_files_are_listed(
    tables: Seq<TableEntry>,
    t: int,
    i: int,
    prefix: Seq<char>,
)
    ensures
        0 <= t < tables.len() && 0 <= i < tables[t].files.len() ==> is_referenced(
            tables,
            segments(tables[t].files[i].path@)[0],
        ),
        is_referenced(tables, prefix) ==> exists|s: int, j: int|
            0 <= s < tables.len() && 0 <= j < tables[s].files.len() && segments(
                (#[trigger] tables[s].files[j]).path@,
            )[0] == prefix,
{
    if 0 <= t < tables.len() && 0 <= i < tables[t].files.len() {
        assert(first_segment(tables[t].files[i].path@) == segments(tables[t].files[i].path@)[0]);
    }
    if is_referenced(tables, prefix) {
        let (s, j) = choose|s: int, j: int|
            0 <= s < tables.len() && 0 <= j < tables[s].files.len() && first_segment(
                (#[trigger] tables[s].files[j]).path@,
            ) == prefix;
        assert(segments(tables[s].files[j].path@)[0] == prefix);
    }
}

/// References are counted one by one: as checked, as missing, or as neither.
pub proof fn references_are_counted(
    a: Seq<ParquetFile>,
    b: Seq<ParquetFile>,
    f: ParquetFile,
    listings: Seq<(String, Listing)>,
)
    ensures
        checked_count(a + b, listings) == checked_count(a, listings) + checked_count(b, listings),
        missing_files(a + b, listings).len() == missing_files(a, listings).len() + missing_files(
            b,
            listings,
        ).len(),
        checked_count(seq![f], listings) == if is_checked(listings, f.path@) {
            1nat
        } else {
            0
        },
        missing_files(seq![f], listings).len() == if is_missing(listings, f.path@) {
            1nat
        } else {
            0
        },
    decreases b.len(),
{
    reveal(Seq::filter);
    let one = seq![f];
    assert(one.drop_last() =~= Seq::empty());
    assert(checked_count(one.drop_last(), listings) == 0);
    assert(missing_files(one.drop_last(), listings).len() == 0);
    assert(one.last() == f);
    if b.len() == 0 {
        assert(a + b =~= a);
    } else {
        references_are_counted(a, b.drop_last(), f, listings);
        assert((a + b).drop_last() =~= a + b.drop_last());
        assert((a + b).last() == b.last());
    }
}

/// A pass adds up what it finds table by table, and remembers every path that it evicts.
pub proof fn pass_adds_up(
    t: FileState,
    tables: Seq<TableEntry>,
    table: TableEntry,
    listings: Seq<(String, Listing)>,
)
    ensures
        ({
            let before = pass_over(t, tables, listings);
            let after = pass_over(t, tables.push(table), listings);
            &&& after.total == before.total + table.files.len()
            &&& after.checked == before.checked + checked_count(table.files, listings)
            &&& after.evicted == before.evicted + missing_files(table.files, listings).len()
        }),
        pass_over(t, Seq::empty(), listings).total == 0,
        pass_over(t, Seq::empty(), listings).checked == 0,
        pass_over(t, Seq::empty(), listings).evicted == 0,
{
    assert(tables.push(table).drop_last() =~= tables);
}

/// What a pass remembers as missing are the paths of its tables that are missing, each of them
/// and no other.
pub proof fn pass_remembers_what_is_missing(
    t: FileState,
    tables: Seq<TableEntry>,
    listings: Seq<(String, Listing)>,
    p: Seq<char>,
)
    ensures
        pass_over(t, tables, listings).missing.contains(p) <==> is_missing(listings, p) && exists|
            n: int,
        | 0 <= n < tables.len() && has_path((#[trigger] tables[n]).files, p),
        pass_over(t, tables, listings).evicted == pass_over(t, tables, listings).missing.len(),
    decreases tables.len(),
{
    if tables.len() > 0 {
        let rest = tables.drop_last();
        let table = tables.last();
        let before = pass_over(t, rest, listings).missing;
        let own = paths_list(missing_files(table.files, listings));
        pass_remembers_what_is_missing(t, rest, listings, p);
        missing_paths(table.files, listings, p);
        assert(tables[tables.len() - 1] == table);
        let all = before + own;
        if before.contains(p) {
            let i = choose|i: int| 0 <= i < before.len() && before[i] == p;
            assert(all[i] == p);
            let n = choose|n: int| 0 <= n < rest.len() && has_path((#[trigger] rest[n]).files, p);
            assert(tables[n] == rest[n]);
        }
        if own.contains(p) {
            let i = choose|i: int| 0 <= i < own.len() && own[i] == p;
            assert(all[before.len() + i] == p);
        }
        if all.contains(p) {
            let i = choose|i: int| 0 <= i < all.len() && all[i] == p;
            if i < before.len() {
                assert(before[i] == p);
            } else {
                assert(own[i - before.len()] == p);
            }
        }
        if exists|n: int| 0 <= n < tables.len() && has_path((#[trigger] tables[n]).files, p) {
            let n = choose|n: int|
                0 <= n < tables.len() && has_path((#[trigger] tables[n]).files, p);
            if n < rest.len() {
                assert(rest[n] == tables[n]);
            }
        }
    }
}

proof fn missing_paths(files: Seq<ParquetFile>, listings: Seq<(String, Listing)>, p: Seq<char>)
    ensures
        paths_list(missing_files(files, listings)).contains(p) <==> has_path(files, p)
            && is_missing(listings, p),
    decreases files.len(),
{
    reveal(Seq::filter);
    let found = missing_files(files, listings);
    let list = paths_list(found);
    if files.len() > 0 {
        let rest = files.drop_last();
        let before = missing_files(rest, listings);
        missing_paths(rest, listings, p);
        crate::fold_laws::has_path_push(rest, files.last(), p);
        assert(rest.push(files.last()) =~= files);
        if is_missing(listings, files.last().path@) {
            assert(list =~= paths_list(before).push(files.last().path@));
            if paths_list(before).contains(p) {
                let i = choose|i: int| 0 <= i < before.len() && paths_list(before)[i] == p;
                assert(list[i] == p);
            }
            if files.last().path@ == p {
                assert(list[before.len() as int] == p);
            }
            if list.contains(p) && files.last().path@ != p {
                let i = choose|i: int| 0 <= i < list.len() && list[i] == p;
                assert(paths_list(before)[i] == p);
            }
        }
    } else {
        assert(list.len() == 0);
    }
}

/// The summary of a pass: every reference is checked or skipped, and counts are exact as long as
/// they fit.
pub proof fn summary_counts_every_reference(r: ValidationSummary, pass: Pass)
    requires
        is_summary(r, pass),
        pass.evicted <= pass.checked <= pass.total <= usize::MAX,
    ensures
        r.checked == pass.checked,
        r.evicted == pass.evicted,
        r.checked + r.skipped == pass.total,
{
}

} // verus!

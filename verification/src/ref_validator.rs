//! Validation of tracked files against object storage.
//!
//! A file is only referred to once its object is uploaded, and its removal is announced
//! before the object is deleted. A reference whose object is missing from a complete
//! listing is therefore stale, and is evicted.

use vstd::prelude::*;
use vstd::string::*;

use crate::collections::{paths_in, PathSet};
use crate::files::{entries, has_path, path_set, DbId, ParquetFile, TableEntry, TableFiles, TableId};
use crate::fold::files_of;
use crate::fold_laws::{has_path_push, has_path_without};
use crate::object_path::{
    object_path, plain_path_join, plain_segment, plain_segment_path, plain_word, stored_path,
};
use crate::persisted_files::{after_remove, with_gone, within_bound, FileState, PersistedFiles};
use crate::text::{first_segment, path_head, texts};
use crate::watermarks::{lookup, lookup_hit, lookup_miss};

verus! {

/// What a validation pass found.
#[derive(Debug, Clone, Copy, PartialEq, Eq, Structural)]
pub struct ValidationSummary {
    /// References that were checked against a complete listing.
    pub checked: usize,
    /// References that were evicted because their object does not exist.
    pub evicted: usize,
    /// References that were skipped because their prefix could not be listed.
    pub skipped: usize,
}

impl Default for ValidationSummary {
    fn default() -> (r: ValidationSummary)
        ensures
            r.checked == 0,
            r.evicted == 0,
            r.skipped == 0,
    {
        ValidationSummary { checked: 0, evicted: 0, skipped: 0 }
    }
}

/// Some file of the tables is under this prefix.
pub open spec fn is_referenced(tables: Seq<TableEntry>, prefix: Seq<char>) -> bool {
    exists|t: int, i: int|
        0 <= t < tables.len() && 0 <= i < tables[t].files.len() && first_segment(
            (#[trigger] tables[t].files[i]).path@,
        ) == prefix
}

fn names(list: &Vec<String>, name: &String) -> (r: bool)
    ensures
        r == texts(list@).contains(name@),
{
    let mut i: usize = 0;
    while i < list.len()
        invariant
            i <= list.len(),
            forall|j: int| 0 <= j < i ==> (#[trigger] texts(list@)[j]) != name@,
        decreases list.len() - i,
    {
        if list[i] == *name {
            proof {
                assert(texts(list@)[i as int] == name@);
            }
            return true;
        }
        proof {
            assert(texts(list@)[i as int] != name@);
        }
        i += 1;
    }
    false
}

/// The files of the first `t` tables and the first `i` files of table `t` reach the
/// prefix.
spec fn is_referenced_before(tables: Seq<TableEntry>, t: int, i: int, prefix: Seq<char>) -> bool {
    exists|s: int, j: int|
        0 <= s < tables.len() && 0 <= j < tables[s].files.len() && (s < t || (s == t && j < i))
            && first_segment((#[trigger] tables[s].files[j]).path@) == prefix
}

/// `out` holds the prefixes that the files before this one reach.
spec fn collects(out: Seq<Seq<char>>, tables: Seq<TableEntry>, t: int, i: int) -> bool {
    forall|p: Seq<char>| #![trigger out.contains(p)]
        out.contains(p) <==> (p.len() > 0 && is_referenced_before(tables, t, i, p))
}

proof fn collects_one_more(
    before: Seq<Seq<char>>,
    after: Seq<Seq<char>>,
    tables: Seq<TableEntry>,
    t: int,
    i: int,
    prefix: Seq<char>,
)
    requires
        0 <= t < tables.len(),
        0 <= i < tables[t].files.len(),
        prefix == first_segment(tables[t].files[i].path@),
        collects(before, tables, t, i),
        after == if prefix.len() > 0 && !before.contains(prefix) {
            before.push(prefix)
        } else {
            before
        },
    ensures
        collects(after, tables, t, i + 1),
{
    assert forall|p: Seq<char>| #![trigger after.contains(p)]
        after.contains(p) <==> (p.len() > 0 && is_referenced_before(tables, t, i + 1, p)) by {
        let was = is_referenced_before(tables, t, i, p);
        assert(before.contains(p) <==> (p.len() > 0 && was));
        if was {
            let (s, j) = choose|s: int, j: int|
                0 <= s < tables.len() && 0 <= j < tables[s].files.len() && (s < t || (s == t && j
                    < i)) && first_segment((#[trigger] tables[s].files[j]).path@) == p;
            assert(first_segment(tables[s].files[j].path@) == p);
            assert(is_referenced_before(tables, t, i + 1, p));
        }
        if p == prefix {
            assert(first_segment(tables[t].files[i].path@) == p);
            assert(is_referenced_before(tables, t, i + 1, p));
        }
        if is_referenced_before(tables, t, i + 1, p) && p != prefix {
            let (s, j) = choose|s: int, j: int|
                0 <= s < tables.len() && 0 <= j < tables[s].files.len() && (s < t || (s == t && j
                    < i + 1)) && first_segment((#[trigger] tables[s].files[j]).path@) == p;
            assert(first_segment(tables[s].files[j].path@) == p);
            assert(was);
        }
        if before.contains(p) {
            let k = choose|k: int| 0 <= k < before.len() && before[k] == p;
            assert(after[k] == p);
        }
        if prefix.len() > 0 && !before.contains(prefix) {
            assert(after[before.len() as int] == prefix);
            if after.contains(p) {
                let k = choose|k: int| 0 <= k < after.len() && after[k] == p;
                if k < before.len() {
                    assert(before[k] == p);
                }
            }
        }
    }
}

proof fn collects_next_table(out: Seq<Seq<char>>, tables: Seq<TableEntry>, t: int)
    requires
        0 <= t < tables.len(),
        collects(out, tables, t, tables[t].files.len() as int),
    ensures
        collects(out, tables, t + 1, 0),
{
    let n = tables[t].files.len() as int;
    assert forall|p: Seq<char>| #![trigger out.contains(p)]
        out.contains(p) <==> (p.len() > 0 && is_referenced_before(tables, t + 1, 0, p)) by {
        if is_referenced_before(tables, t, n, p) {
            let (s, j) = choose|s: int, j: int|
                0 <= s < tables.len() && 0 <= j < tables[s].files.len() && (s < t || (s == t && j
                    < n)) && first_segment((#[trigger] tables[s].files[j]).path@) == p;
            assert(first_segment(tables[s].files[j].path@) == p);
            assert(is_referenced_before(tables, t + 1, 0, p));
        }
        if is_referenced_before(tables, t + 1, 0, p) {
            let (s, j) = choose|s: int, j: int|
                0 <= s < tables.len() && 0 <= j < tables[s].files.len() && (s < t + 1 || (s == t + 1
                    && j < 0)) && first_segment((#[trigger] tables[s].files[j]).path@) == p;
            assert(first_segment(tables[s].files[j].path@) == p);
            assert(is_referenced_before(tables, t, n, p));
        }
    }
}

proof fn collects_everything(out: Seq<Seq<char>>, tables: Seq<TableEntry>)
    requires
        collects(out, tables, tables.len() as int, 0),
    ensures
        forall|p: Seq<char>| #![trigger out.contains(p)]
            out.contains(p) <==> (p.len() > 0 && is_referenced(tables, p)),
{
    let n = tables.len() as int;
    assert forall|p: Seq<char>| #![trigger out.contains(p)]
        out.contains(p) <==> (p.len() > 0 && is_referenced(tables, p)) by {
        if is_referenced(tables, p) {
            let (s, j) = choose|s: int, j: int|
                0 <= s < tables.len() && 0 <= j < tables[s].files.len() && first_segment(
                    (#[trigger] tables[s].files[j]).path@,
                ) == p;
            assert(first_segment(tables[s].files[j].path@) == p);
            assert(is_referenced_before(tables, n, 0, p));
        }
        if is_referenced_before(tables, n, 0, p) {
            let (s, j) = choose|s: int, j: int|
                0 <= s < tables.len() && 0 <= j < tables[s].files.len() && (s < n || (s == n && j
                    < 0)) && first_segment((#[trigger] tables[s].files[j]).path@) == p;
            assert(first_segment(tables[s].files[j].path@) == p);
            assert(is_referenced(tables, p));
        }
    }
}

/// The node prefixes to list: the first segments of the paths, each once. A path without
/// one is not looked for.
pub fn prefixes_to_list(tables: &Vec<TableFiles>) -> (r: Vec<String>)
    ensures
        forall|p: Seq<char>| #![trigger texts(r@).contains(p)]
            texts(r@).contains(p) <==> (p.len() > 0 && is_referenced(entries(tables@), p)),
        texts(r@).no_duplicates(),
{
    let ghost list = entries(tables@);
    let mut out: Vec<String> = Vec::new();
    let mut t: usize = 0;
    proof {
        assert(texts(out@) =~= Seq::empty());
    }
    while t < tables.len()
        invariant
            t <= tables.len(),
            list == entries(tables@),
            texts(out@).no_duplicates(),
            collects(texts(out@), list, t as int, 0),
        decreases tables.len() - t,
    {
        let files = &tables[t].files;
        let mut i: usize = 0;
        while i < files.len()
            invariant
                i <= files.len(),
                t < tables.len(),
                list == entries(tables@),
                files@ == list[t as int].files,
                texts(out@).no_duplicates(),
                collects(texts(out@), list, t as int, i as int),
            decreases files.len() - i,
        {
            let prefix = path_head(files[i].path.as_str());
            let ghost before = texts(out@);
            if prefix.as_str().unicode_len() > 0 && !names(&out, &prefix) {
                out.push(prefix.clone());
                proof {
                    assert(texts(out@) =~= before.push(prefix@));
                }
            }
            proof {
                collects_one_more(before, texts(out@), list, t as int, i as int, prefix@);
            }
            i += 1;
        }
        proof {
            collects_next_table(texts(out@), list, t as int);
        }
        t += 1;
    }
    proof {
        collects_everything(texts(out@), list);
    }
    out
}

/// Where the data files of a node are.
pub fn data_dir(prefix: &str) -> (r: String)
    ensures
        r@ == stored_path(prefix@ + "/dbs"@),
        plain_segment(prefix@) ==> r@ == prefix@ + "/dbs"@,
{
    let mut raw = prefix.to_owned();
    raw.append("/dbs");
    proof {
        if plain_segment(prefix@) {
            reveal_strlit("dbs");
            reveal_strlit("/dbs");
            plain_segment_path(prefix@);
            plain_word("dbs"@, 0);
            plain_path_join(prefix@, "dbs"@);
            assert(raw@ =~= prefix@ + seq!['/'] + "dbs"@);
        }
    }
    object_path(raw.as_str())
}

/// A listing of the objects of one node; `None` where it failed.
pub type Listing = Option<Vec<String>>;

/// The listing of the node that the path is under is complete.
pub open spec fn is_checked(listings: Seq<(String, Listing)>, path: Seq<char>) -> bool {
    match lookup(listings, first_segment(path)) {
        Some(Some(_)) => true,
        _ => false,
    }
}

/// The listing of the node that the path is under is complete, and the path is not in it.
pub open spec fn is_missing(listings: Seq<(String, Listing)>, path: Seq<char>) -> bool {
    match lookup(listings, first_segment(path)) {
        Some(Some(paths)) => !texts(paths@).contains(path),
        _ => false,
    }
}

/// The files that are missing.
pub open spec fn missing_files(
    files: Seq<ParquetFile>,
    listings: Seq<(String, Listing)>,
) -> Seq<ParquetFile> {
    files.filter(|f: ParquetFile| is_missing(listings, f.path@))
}

/// How many of the files were checked.
pub open spec fn checked_count(files: Seq<ParquetFile>, listings: Seq<(String, Listing)>) -> nat {
    files.filter(|f: ParquetFile| is_checked(listings, f.path@)).len()
}

/// What a pass does to the tracked files and finds: the missing files of each table are
/// removed from it.
pub struct Pass {
    pub files: FileState,
    pub missing: Seq<Seq<char>>,
    pub checked: nat,
    pub evicted: nat,
    pub total: nat,
}

/// The paths of the files.
pub open spec fn paths_list(files: Seq<ParquetFile>) -> Seq<Seq<char>> {
    Seq::new(files.len(), |i: int| files[i].path@)
}

/// A pass over the tables, in order.
pub open spec fn pass_over(
    t: FileState,
    tables: Seq<TableEntry>,
    listings: Seq<(String, Listing)>,
) -> Pass
    decreases tables.len(),
{
    if tables.len() == 0 {
        Pass { files: t, missing: Seq::empty(), checked: 0, evicted: 0, total: 0 }
    } else {
        let before = pass_over(t, tables.drop_last(), listings);
        let table = tables.last();
        let missing = missing_files(table.files, listings);
        Pass {
            files: if missing.len() > 0 {
                after_remove(before.files, table.key, path_set(missing))
            } else {
                before.files
            },
            missing: before.missing + paths_list(missing),
            checked: before.checked + checked_count(table.files, listings),
            evicted: before.evicted + missing.len(),
            total: before.total + table.files.len(),
        }
    }
}

/// A number, or the largest `usize` where it is larger.
pub open spec fn clamped_size(n: nat) -> usize {
    if n <= usize::MAX {
        n as usize
    } else {
        usize::MAX
    }
}

/// The listings of the prefixes, as sets.
struct Existing {
    prefixes: Vec<(String, Option<PathSet>)>,
}

/// The set holds what the listing lists.
spec fn mirrors(sets: Seq<(String, Option<PathSet>)>, listings: Seq<(String, Listing)>) -> bool {
    &&& sets.len() == listings.len()
    &&& forall|i: int| #![trigger sets[i]]
        0 <= i < sets.len() ==> sets[i].0@ == listings[i].0@ && match listings[i].1 {
            Some(paths) => sets[i].1 is Some && forall|p: Seq<char>| #[trigger]
                paths_in(sets[i].1->0).contains(p) <==> texts(paths@).contains(p),
            None => sets[i].1 is None,
        }
}

fn path_set_of(paths: &Vec<String>) -> (r: PathSet)
    ensures
        forall|p: Seq<char>| #[trigger] paths_in(r).contains(p) <==> texts(paths@).contains(p),
{
    let mut set = PathSet::new();
    let mut i: usize = 0;
    while i < paths.len()
        invariant
            i <= paths.len(),
            forall|p: Seq<char>| #[trigger]
                paths_in(set).contains(p) <==> exists|k: int|
                    0 <= k < i && (#[trigger] texts(paths@)[k]) == p,
        decreases paths.len() - i,
    {
        let ghost before = paths_in(set);
        set.insert(paths[i].clone());
        proof {
            assert(texts(paths@)[i as int] == paths@[i as int]@);
            assert forall|p: Seq<char>| #[trigger] paths_in(set).contains(p) <==> exists|k: int|
                0 <= k < i + 1 && (#[trigger] texts(paths@)[k]) == p by {
                if paths_in(set).contains(p) && p != paths@[i as int]@ {
                    assert(before.contains(p));
                }
            }
        }
        i += 1;
    }
    set
}

impl Existing {
    fn new(listings: &Vec<(String, Listing)>) -> (r: Existing)
        ensures
            mirrors(r.prefixes@, listings@),
    {
        let mut prefixes: Vec<(String, Option<PathSet>)> = Vec::new();
        let mut i: usize = 0;
        while i < listings.len()
            invariant
                i <= listings.len(),
                mirrors(prefixes@, listings@.take(i as int)),
            decreases listings.len() - i,
        {
            let ghost before = prefixes@;
            let set: Option<PathSet> = match &listings[i].1 {
                Some(paths) => Some(path_set_of(paths)),
                None => None,
            };
            prefixes.push((listings[i].0.clone(), set));
            proof {
                let part = listings@.take(i + 1);
                assert forall|k: int| #![trigger prefixes@[k]] 0 <= k < prefixes@.len() implies
                    prefixes@[k].0@ == part[k].0@ && match part[k].1 {
                    Some(paths) => prefixes@[k].1 is Some && forall|p: Seq<char>| #[trigger]
                        paths_in(prefixes@[k].1->0).contains(p) <==> texts(paths@).contains(p),
                    None => prefixes@[k].1 is None,
                } by {
                    if k < i {
                        assert(prefixes@[k] == before[k]);
                        assert(part[k] == listings@.take(i as int)[k]);
                    }
                }
            }
            i += 1;
        }
        proof {
            assert(listings@.take(i as int) =~= listings@);
        }
        Existing { prefixes }
    }

    /// Whether the path was checked and, if so, whether it is missing.
    fn check(&self, path: &str, Ghost(listings): Ghost<Seq<(String, Listing)>>) -> (r: Option<bool>)
        requires
            mirrors(self.prefixes@, listings),
        ensures
            r is Some <==> is_checked(listings, path@),
            r == Some(true) <==> is_missing(listings, path@),
    {
        let prefix = path_head(path);
        let mut i: usize = 0;
        while i < self.prefixes.len()
            invariant
                i <= self.prefixes.len(),
                prefix@ == first_segment(path@),
                mirrors(self.prefixes@, listings),
                forall|j: int| 0 <= j < i ==> (#[trigger] listings[j]).0@ != prefix@,
            decreases self.prefixes.len() - i,
        {
            if self.prefixes[i].0 == prefix {
                proof {
                    assert(self.prefixes@[i as int].0@ == listings[i as int].0@);
                    lookup_hit(listings, prefix@, i as int);
                }
                return match &self.prefixes[i].1 {
                    Some(set) => Some(!set.contains(path)),
                    None => None,
                };
            }
            proof {
                assert(self.prefixes@[i as int].0@ == listings[i as int].0@);
            }
            i += 1;
        }
        proof {
            lookup_miss(listings, prefix@);
        }
        None
    }
}

/// The summary of a pass. What was neither checked nor missing was skipped.
pub open spec fn is_summary(r: ValidationSummary, pass: Pass) -> bool {
    &&& r.checked == clamped_size(pass.checked)
    &&& r.evicted == clamped_size(pass.evicted)
    &&& r.skipped == clamped_size((pass.total - pass.checked) as nat)
}

/// One validation pass: the references in `tables`, as they were tracked when the
/// listings were asked for, are checked against the listings. Those whose object is
/// missing are evicted, and remembered so that no later fold brings them back. A prefix
/// that could not be listed, or was not, evicts nothing.
pub fn validate_once(
    files: &mut PersistedFiles,
    tables: &Vec<TableFiles>,
    listings: &Vec<(String, Listing)>,
) -> (r: ValidationSummary)
    ensures
        ({
            let pass = pass_over(old(files)@, entries(tables@), listings@);
            &&& is_summary(r, pass)
            &&& final(files)@ == within_bound(with_gone(pass.files, pass.missing))
        }),
{
    let existing = Existing::new(listings);
    let ghost start = files@;
    let ghost list = entries(tables@);
    let mut checked: usize = 0;
    let mut evicted: usize = 0;
    let mut skipped: usize = 0;
    let mut gone: Vec<String> = Vec::new();
    let mut t: usize = 0;
    proof {
        assert(list.take(0) =~= Seq::empty());
        assert(texts(gone@) =~= Seq::empty());
        checked_within_total(start, list.take(0), listings@);
    }
    while t < tables.len()
        invariant
            t <= tables.len(),
            list == entries(tables@),
            mirrors(existing.prefixes@, listings@),
            ({
                let pass = pass_over(start, list.take(t as int), listings@);
                &&& files@ == pass.files
                &&& texts(gone@) == pass.missing
                &&& checked == clamped_size(pass.checked)
                &&& evicted == clamped_size(pass.evicted)
                &&& skipped == clamped_size((pass.total - pass.checked) as nat)
                &&& pass.checked <= pass.total
            }),
        decreases tables.len() - t,
    {
        let table = &tables[t];
        let ghost before = pass_over(start, list.take(t as int), listings@);
        let ghost gone_before = texts(gone@);
        let mut missing: Vec<ParquetFile> = Vec::new();
        let mut i: usize = 0;
        proof {
            reveal(Seq::filter);
            assert(table.files@.take(0) =~= Seq::empty());
            assert(gone_before + paths_list(missing@) =~= gone_before);
        }
        while i < table.files.len()
            invariant
                i <= table.files.len(),
                mirrors(existing.prefixes@, listings@),
                missing@ == missing_files(table.files@.take(i as int), listings@),
                texts(gone@) == gone_before + paths_list(missing@),
                before.checked <= before.total,
                checked_count(table.files@.take(i as int), listings@) <= i,
                checked == clamped_size(
                    before.checked + checked_count(table.files@.take(i as int), listings@),
                ),
                skipped == clamped_size(
                    ((before.total - before.checked) + (i - checked_count(
                        table.files@.take(i as int),
                        listings@,
                    ))) as nat,
                ),
            decreases table.files.len() - i,
        {
            let file = &table.files[i];
            let ghost was = missing@;
            proof {
                reveal(Seq::filter);
                assert(table.files@.take(i + 1).drop_last() =~= table.files@.take(i as int));
                assert(table.files@.take(i + 1).last() == *file);
            }
            match existing.check(file.path.as_str(), Ghost(listings@)) {
                Some(absent) => {
                    checked = checked.saturating_add(1);
                    if absent {
                        let ghost gone_was = texts(gone@);
                        gone.push(file.path.clone());
                        missing.push(file.duplicate());
                        proof {
                            assert(texts(gone@) =~= gone_was.push(file.path@));
                            assert(paths_list(missing@) =~= paths_list(was).push(file.path@));
                            assert(texts(gone@) =~= gone_before + paths_list(missing@));
                        }
                    }
                },
                None => {
                    skipped = skipped.saturating_add(1);
                },
            }
            i += 1;
        }
        proof {
            assert(table.files@.take(i as int) =~= table.files@);
            assert(list.take(t + 1).drop_last() =~= list.take(t as int));
            assert(list.take(t + 1).last() == table@);
        }
        if missing.len() > 0 {
            evicted = evicted.saturating_add(missing.len());
            files.remove_persisted_files(table.db_id, table.table_id, &missing);
        }
        t += 1;
    }
    proof {
        assert(list.take(t as int) =~= list);
    }
    files.tombstone_evicted_paths(&gone);
    ValidationSummary { checked, evicted, skipped }
}

/// A pass checks no more references than there are.
pub proof fn checked_within_total(
    t: FileState,
    tables: Seq<TableEntry>,
    listings: Seq<(String, Listing)>,
)
    ensures
        pass_over(t, tables, listings).evicted <= pass_over(t, tables, listings).checked
            <= pass_over(t, tables, listings).total,
    decreases tables.len(),
{
    if tables.len() > 0 {
        checked_within_total(t, tables.drop_last(), listings);
        counts_within(tables.last().files, listings);
    }
}

proof fn counts_within(files: Seq<ParquetFile>, listings: Seq<(String, Listing)>)
    ensures
        missing_files(files, listings).len() <= checked_count(files, listings) <= files.len(),
    decreases files.len(),
{
    reveal(Seq::filter);
    if files.len() > 0 {
        counts_within(files.drop_last(), listings);
    }
}

/// Nothing is evicted under a prefix whose listing failed or is not there.
pub proof fn failed_listing_evicts_nothing(listings: Seq<(String, Listing)>, path: Seq<char>)
    requires
        lookup(listings, first_segment(path)) is None || lookup(listings, first_segment(path))->0
            is None,
    ensures
        !is_checked(listings, path),
        !is_missing(listings, path),
{
}

/// A reference whose object is listed, or whose prefix is not, survives a pass.
pub proof fn present_refs_survive(
    t: FileState,
    tables: Seq<TableEntry>,
    listings: Seq<(String, Listing)>,
    key: (DbId, TableId),
    p: Seq<char>,
)
    requires
        !is_missing(listings, p),
        has_path(files_of(t.files, key), p),
    ensures
        has_path(files_of(pass_over(t, tables, listings).files.files, key), p),
    decreases tables.len(),
{
    if tables.len() > 0 {
        present_refs_survive(t, tables.drop_last(), listings, key, p);
        let before = pass_over(t, tables.drop_last(), listings).files;
        let table = tables.last();
        let missing = missing_files(table.files, listings);
        missing_are_missing(table.files, listings, p);
        if missing.len() > 0 && before.files.contains_key(table.key) && table.key == key {
            has_path_without(before.files[key], path_set(missing), p);
        }
    }
}

/// A reference that appears while a pass is under way survives it, whatever the listings say:
/// a pass evicts only what it knew of when it started.
pub proof fn later_refs_survive(
    t: FileState,
    tables: Seq<TableEntry>,
    listings: Seq<(String, Listing)>,
    key: (DbId, TableId),
    p: Seq<char>,
)
    requires
        forall|n: int|
            0 <= n < tables.len() && (#[trigger] tables[n]).key == key ==> !has_path(
                tables[n].files,
                p,
            ),
        has_path(files_of(t.files, key), p),
    ensures
        has_path(files_of(pass_over(t, tables, listings).files.files, key), p),
    decreases tables.len(),
{
    if tables.len() > 0 {
        let rest = tables.drop_last();
        let table = tables.last();
        assert forall|n: int| 0 <= n < rest.len() && (#[trigger] rest[n]).key == key implies
            !has_path(rest[n].files, p) by {
            assert(rest[n] == tables[n]);
        }
        later_refs_survive(t, rest, listings, key, p);
        let before = pass_over(t, rest, listings).files;
        let missing = missing_files(table.files, listings);
        missing_are_missing(table.files, listings, p);
        if missing.len() > 0 && before.files.contains_key(table.key) && table.key == key {
            assert(tables[tables.len() - 1].key == key);
            has_path_without(before.files[key], path_set(missing), p);
        }
    }
}

/// A reference that a pass finds missing is gone from its table.
pub proof fn missing_refs_are_evicted(
    t: FileState,
    tables: Seq<TableEntry>,
    listings: Seq<(String, Listing)>,
    n: int,
    p: Seq<char>,
)
    requires
        0 <= n < tables.len(),
        has_path(tables[n].files, p),
        is_missing(listings, p),
    ensures
        !has_path(files_of(pass_over(t, tables, listings).files.files, tables[n].key), p),
    decreases tables.len(),
{
    let rest = tables.drop_last();
    let table = tables.last();
    let before = pass_over(t, rest, listings).files;
    let missing = missing_files(table.files, listings);
    missing_are_missing(table.files, listings, p);
    if n == tables.len() - 1 {
        assert(has_path(missing, p));
        assert(missing.len() > 0);
        if before.files.contains_key(table.key) {
            has_path_without(before.files[table.key], path_set(missing), p);
        }
    } else {
        assert(rest[n] == tables[n]);
        missing_refs_are_evicted(t, rest, listings, n, p);
        if missing.len() > 0 && before.files.contains_key(table.key) {
            has_path_without(before.files[table.key], path_set(missing), p);
        }
    }
}

proof fn missing_are_missing(
    files: Seq<ParquetFile>,
    listings: Seq<(String, Listing)>,
    p: Seq<char>,
)
    ensures
        has_path(missing_files(files, listings), p) == (has_path(files, p) && is_missing(
            listings,
            p,
        )),
    decreases files.len(),
{
    reveal(Seq::filter);
    if files.len() > 0 {
        let rest = files.drop_last();
        missing_are_missing(rest, listings, p);
        has_path_push(rest, files.last(), p);
        assert(rest.push(files.last()) =~= files);
        has_path_push(missing_files(rest, listings), files.last(), p);
    }
}

} // verus!

//! The tail of the writers' write-ahead logs: data that is not persisted yet.
//!
//! A querier replays the log files of each writer that no manifest covers. Once a
//! manifest covers a file it is dropped, since its rows are in persisted files. A cap
//! on the number of files for each writer bounds memory; it drops the oldest, which
//! are then missing from queries until they are persisted.

use std::collections::BTreeMap;

use vstd::prelude::*;
use vstd::std_specs::iter::IteratorSpec;
use vstd::string::*;

use crate::order::{
    is_stable_order, position_before, reordered, reordered_keeps, stable_order,
};
use crate::text::{
    last_segment, parse_unsigned, path_tail, read_unsigned, trim_end, trimmed_end,
};
use crate::watermarks::{
    lookup, lookup_hit, lookup_miss, lookup_push, lookup_update, mark_of, raised, NodeMarks,
};

verus! {

broadcast use vstd::std_specs::btree::group_btree_axioms;

/// The sequence number that the path of a log file names.
pub open spec fn wal_sequence(path: Seq<char>) -> Option<u64> {
    if path.len() == 0 {
        None
    } else {
        parse_unsigned(trim_end(last_segment(path), ".wal"@), u64::MAX)
    }
}

/// The sequence number that the path of a log file names.
pub fn parse_wal_seq(path: &str) -> (r: Option<u64>)
    ensures
        r == wal_sequence(path@),
{
    if path.unicode_len() == 0 {
        return None;
    }
    let name = path_tail(path);
    proof {
        reveal_strlit(".wal");
    }
    let stem = trimmed_end(name.as_str(), ".wal");
    read_unsigned(stem.as_str(), u64::MAX)
}

/// `k` is the lowest key of the map.
pub open spec fn is_lowest<S>(files: Map<u64, S>, k: u64) -> bool {
    files.contains_key(k) && forall|j: u64| files.contains_key(j) ==> k <= j
}

/// The files with the highest sequence numbers, at most `cap` of them: what is left
/// when the lowest is dropped as long as there are more.
pub open spec fn newest<S>(files: Map<u64, S>, cap: nat) -> Map<u64, S>
    decreases files.len(),
{
    if files.dom().finite() && files.len() > cap {
        let lowest = choose|k: u64| is_lowest(files, k);
        if files.contains_key(lowest) {
            newest(files.remove(lowest), cap)
        } else {
            files
        }
    } else {
        files
    }
}

/// The files of one writer, by sequence number, as replayed.
#[derive(Debug)]
pub struct WriterTail<S> {
    files: BTreeMap<u64, S>,
}

impl<S> View for WriterTail<S> {
    type V = Map<u64, S>;

    closed spec fn view(&self) -> Map<u64, S> {
        self.files@
    }
}

/// The highest sequence number, zero where there is none.
pub open spec fn is_cursor<S>(files: Map<u64, S>, cursor: u64) -> bool {
    &&& forall|k: u64| #[trigger] files.contains_key(k) ==> k <= cursor
    &&& files.contains_key(cursor) || (cursor == 0 && files.dom() == Set::<u64>::empty())
}

impl<S> WriterTail<S> {
    /// No files.
    pub fn new() -> (r: WriterTail<S>)
        ensures
            r@ == Map::<u64, S>::empty(),
    {
        WriterTail { files: BTreeMap::new() }
    }

    /// The sequence numbers of the files, in any order.
    fn keys(&self) -> (r: Vec<u64>)
        ensures
            forall|k: u64| r@.contains(k) <==> #[trigger] self@.contains_key(k),
            r@.no_duplicates(),
    {
        let mut out: Vec<u64> = Vec::new();
        for k in it: self.files.keys()
            invariant
                out@.len() == it.index(),
                forall|i: int| 0 <= i < out.len() ==> out@[i] == *it.seq()[i],
                it.seq() == vstd::std_specs::btree::spec_keys_iter(&self.files).remaining(),
        {
            out.push(*k);
        }
        proof {
            let keys = vstd::std_specs::btree::spec_keys_iter(&self.files).remaining();
            assert(keys.len() == out@.len());
            assert(keys.unref() =~= out@);
            assert forall|k: u64| out@.contains(k) <==> #[trigger] self@.contains_key(k) by {
                assert(keys.unref().to_set().contains(k) <==> self.files@.dom().contains(k));
            }
            assert forall|i: int, j: int| 0 <= i < j < out@.len() implies out@[i] != out@[j] by {
                assert(keys[i] != keys[j]);
            }
        }
        out
    }

    /// The sequence numbers of the files, in ascending order.
    pub fn sequences(&self) -> (r: Vec<u64>)
        ensures
            forall|k: u64| r@.contains(k) <==> #[trigger] self@.contains_key(k),
            forall|i: int, j: int| 0 <= i < j < r.len() ==> r@[i] < r@[j],
    {
        let keys = self.keys();
        let order = stable_order(&keys);
        let mut out: Vec<u64> = Vec::new();
        let mut n: usize = 0;
        while n < order.len()
            invariant
                n <= order.len(),
                is_stable_order(keys@, order@),
                out.len() == n,
                forall|k: int| 0 <= k < n ==> out@[k] == keys@[order@[k] as int],
            decreases order.len() - n,
        {
            out.push(keys[order[n]]);
            n += 1;
        }
        proof {
            assert(out@ =~= reordered(keys@, order@));
            reordered_keeps(keys@, order@);
            assert forall|i: int, j: int| 0 <= i < j < out.len() implies out@[i] < out@[j] by {
                let a = order@[i] as int;
                let b = order@[j] as int;
                assert(position_before(keys@, a, b));
                assert(a < keys.len() && b < keys.len() && a != b);
                assert(keys@[a] != keys@[b]) by {
                    if a < b {
                        assert(keys@[a] != keys@[b]);
                    } else {
                        assert(keys@[b] != keys@[a]);
                    }
                }
            }
        }
        out
    }

    /// The replayed files, oldest first.
    pub fn states(&self) -> (r: Vec<(u64, &S)>)
        ensures
            forall|i: int|
                0 <= i < r.len() ==> self@.contains_key((#[trigger] r@[i]).0) && self@[r@[i].0]
                    == *r@[i].1,
            forall|k: u64| #[trigger]
                self@.contains_key(k) ==> exists|i: int| 0 <= i < r.len() && (#[trigger] r@[i]).0 == k,
            forall|i: int, j: int| 0 <= i < j < r.len() ==> r@[i].0 < r@[j].0,
    {
        let keys = self.sequences();
        let mut out: Vec<(u64, &S)> = Vec::new();
        let mut n: usize = 0;
        while n < keys.len()
            invariant
                n <= keys.len(),
                forall|k: u64| keys@.contains(k) <==> #[trigger] self@.contains_key(k),
                forall|i: int, j: int| 0 <= i < j < keys.len() ==> keys@[i] < keys@[j],
                out.len() == n,
                forall|i: int|
                    0 <= i < n ==> (#[trigger] out@[i]).0 == keys@[i] && self@.contains_key(
                        out@[i].0,
                    ) && self@[out@[i].0] == *out@[i].1,
            decreases keys.len() - n,
        {
            let key: u64 = keys[n];
            proof {
                assert(keys@.contains(keys@[n as int]));
                assert(self@.contains_key(key));
            }
            if let Some(state) = self.files.get(&key) {
                out.push((key, state));
            }
            n += 1;
        }
        proof {
            assert forall|k: u64| #[trigger] self@.contains_key(k) implies exists|i: int|
                0 <= i < out.len() && (#[trigger] out@[i]).0 == k by {
                assert(keys@.contains(k));
                let i = choose|i: int| 0 <= i < keys@.len() && keys@[i] == k;
                assert(out@[i].0 == k);
            }
        }
        out
    }

    fn lowest(&self) -> (r: Option<u64>)
        ensures
            match r {
                Some(k) => is_lowest(self@, k),
                None => self@.dom() == Set::<u64>::empty(),
            },
    {
        let keys = self.keys();
        if keys.len() == 0 {
            proof {
                assert forall|k: u64| !self@.dom().contains(k) by {
                    if self@.contains_key(k) {
                        assert(keys@.contains(k));
                    }
                }
                assert(self@.dom() =~= Set::<u64>::empty());
            }
            return None;
        }
        let mut low: u64 = keys[0];
        let mut i: usize = 1;
        while i < keys.len()
            invariant
                1 <= i <= keys.len(),
                keys@.contains(low),
                forall|j: int| 0 <= j < i ==> low <= keys@[j],
            decreases keys.len() - i,
        {
            if keys[i] < low {
                low = keys[i];
            }
            i += 1;
        }
        proof {
            assert(self@.contains_key(low));
            assert forall|k: u64| self@.contains_key(k) implies low <= k by {
                assert(keys@.contains(k));
            }
        }
        Some(low)
    }

    /// The highest sequence number, zero where there is none.
    pub fn cursor(&self) -> (r: u64)
        ensures
            is_cursor(self@, r),
    {
        let keys = self.keys();
        let mut high: u64 = 0;
        let mut i: usize = 0;
        while i < keys.len()
            invariant
                i <= keys.len(),
                forall|j: int| 0 <= j < i ==> keys@[j] <= high,
                i == 0 ==> high == 0,
                i > 0 ==> keys@.contains(high),
            decreases keys.len() - i,
        {
            if i == 0 || keys[i] > high {
                high = keys[i];
            }
            i += 1;
        }
        proof {
            assert forall|k: u64| #[trigger] self@.contains_key(k) implies k <= high by {
                assert(keys@.contains(k));
            }
            if keys@.len() == 0 {
                assert forall|k: u64| !self@.dom().contains(k) by {
                    if self@.contains_key(k) {
                        assert(keys@.contains(k));
                    }
                }
                assert(self@.dom() =~= Set::<u64>::empty());
            } else {
                assert(self@.contains_key(high));
            }
        }
        high
    }

    /// Adds a replayed file, and drops the oldest files beyond the cap. Returns those of
    /// the dropped that are above the persisted high-water mark: their rows are missing
    /// from queries for now.
    pub fn add_file(&mut self, seq: u64, state: S, max_files: usize, high_water: u64) -> (r: Vec<
        u64,
    >)
        ensures
            final(self)@ == newest(old(self)@.insert(seq, state), max_files as nat),
            forall|k: u64| #[trigger]
                r@.contains(k) <==> old(self)@.insert(seq, state).contains_key(k)
                    && !final(self)@.contains_key(k) && k > high_water,
    {
        self.files.insert(seq, state);
        let ghost full = self@;
        let mut lost: Vec<u64> = Vec::new();
        while self.files.len() > max_files
            invariant
                newest(self@, max_files as nat) == newest(full, max_files as nat),
                self@.submap_of(full),
                forall|k: u64| #[trigger]
                    full.contains_key(k) && !self@.contains_key(k) && k > high_water
                        ==> lost@.contains(k),
                forall|i: int|
                    0 <= i < lost.len() ==> full.contains_key(#[trigger] lost@[i])
                        && !self@.contains_key(lost@[i]) && lost@[i] > high_water,
            decreases self.files.len(),
        {
            let ghost before = self@;
            let ghost lost_before = lost@;
            match self.lowest() {
                Some(oldest) => {
                    if oldest > high_water {
                        lost.push(oldest);
                    }
                    self.files.remove(&oldest);
                    proof {
                        let k = choose|k: u64| is_lowest(before, k);
                        assert(is_lowest(before, oldest));
                        assert(k == oldest);
                        assert(self@ == before.remove(oldest));
                        assert forall|k: u64| #[trigger]
                            full.contains_key(k) && !self@.contains_key(k) && k
                                > high_water implies lost@.contains(k) by {
                            if k == oldest {
                                assert(lost@[lost_before.len() as int] == k);
                            } else {
                                assert(!before.contains_key(k));
                                assert(lost_before.contains(k));
                                let i = choose|i: int|
                                    0 <= i < lost_before.len() && lost_before[i] == k;
                                assert(lost@[i] == k);
                            }
                        }
                    }
                },
                None => {
                    proof {
                        assert(before.len() == 0);
                    }
                    return lost;
                },
            }
        }
        proof {
            assert forall|k: u64| #[trigger] lost@.contains(k) implies full.contains_key(k)
                && !self@.contains_key(k) && k > high_water by {
                let i = choose|i: int| 0 <= i < lost@.len() && lost@[i] == k;
                assert(full.contains_key(lost@[i]));
            }
        }
        lost
    }

    /// Drops the files up to `seq`.
    fn drop_up_to(&mut self, seq: u64)
        ensures
            final(self)@ == beyond(old(self)@, seq),
    {
        let keys = self.keys();
        let ghost start = self@;
        let mut i: usize = 0;
        while i < keys.len()
            invariant
                i <= keys.len(),
                forall|k: u64| keys@.contains(k) <==> #[trigger] start.contains_key(k),
                self@.submap_of(start),
                forall|k: u64| #[trigger]
                    start.contains_key(k) ==> (self@.contains_key(k) <==> k > seq
                        || !keys@.take(i as int).contains(k)),
            decreases keys.len() - i,
        {
            let ghost before = self@;
            let key: u64 = keys[i];
            if key <= seq {
                self.files.remove(&key);
            }
            proof {
                assert(keys@.take(i + 1) =~= keys@.take(i as int).push(key));
                assert forall|k: u64| #[trigger] start.contains_key(k) implies (self@.contains_key(
                    k,
                ) <==> k > seq || !keys@.take(i + 1).contains(k)) by {
                    let upto = keys@.take(i as int);
                    if upto.contains(k) {
                        let a = choose|a: int| 0 <= a < upto.len() && upto[a] == k;
                        assert(upto.push(key)[a] == k);
                    }
                    if k == key {
                        assert(upto.push(key)[i as int] == k);
                    }
                    if upto.push(key).contains(k) && k != key {
                        let a = choose|a: int| 0 <= a < upto.push(key).len() && upto.push(key)[a] == k;
                        assert(upto[a] == k);
                    }
                }
            }
            i += 1;
        }
        proof {
            assert(keys@.take(i as int) =~= keys@);
            assert(self@ =~= beyond(start, seq));
        }
    }
}

/// The files above `seq`.
pub open spec fn beyond<S>(files: Map<u64, S>, seq: u64) -> Map<u64, S> {
    Map::new(|k: u64| files.contains_key(k) && k > seq, |k: u64| files[k])
}

/// The cap keeps the newest files: as many as it allows, and every one that was dropped
/// is older than every one that was kept.
pub proof fn cap_keeps_newest<S>(files: Map<u64, S>, cap: nat)
    requires
        files.dom().finite(),
    ensures
        newest(files, cap).submap_of(files),
        newest(files, cap).len() == if files.len() <= cap {
            files.len()
        } else {
            cap
        },
        forall|a: u64, b: u64|
            #![trigger files.contains_key(a), newest(files, cap).contains_key(b)]
            files.contains_key(a) && !newest(files, cap).contains_key(a) && newest(
                files,
                cap,
            ).contains_key(b) ==> a < b,
    decreases files.len(),
{
    if files.len() > cap {
        lowest_exists(files);
        let k = choose|k: u64| is_lowest(files, k);
        let rest = files.remove(k);
        cap_keeps_newest(rest, cap);
        assert forall|a: u64, b: u64|
            #![trigger files.contains_key(a), newest(files, cap).contains_key(b)]
            files.contains_key(a) && !newest(files, cap).contains_key(a) && newest(
                files,
                cap,
            ).contains_key(b) implies a < b by {
            assert(rest.contains_key(b));
            assert(files.contains_key(b));
            if a != k {
                assert(rest.contains_key(a));
            }
        }
    }
}

proof fn lowest_exists<S>(files: Map<u64, S>)
    requires
        files.dom().finite(),
        files.len() > 0,
    ensures
        exists|k: u64| is_lowest(files, k),
    decreases files.len(),
{
    let any = files.dom().choose();
    assert(files.contains_key(any));
    if !is_lowest(files, any) {
        let lower = choose|j: u64| files.contains_key(j) && j < any;
        let rest = files.remove(any);
        assert(rest.contains_key(lower));
        assert(rest.len() > 0) by {
            if rest.dom().len() == 0 {
                assert(rest.dom() =~= Set::<u64>::empty());
            }
        }
        lowest_exists(rest);
        let k = choose|k: u64| is_lowest(rest, k);
        assert(is_lowest(files, k)) by {
            assert forall|j: u64| files.contains_key(j) implies k <= j by {
                if j == any {
                    assert(k <= lower);
                } else {
                    assert(rest.contains_key(j));
                }
            }
        }
    }
}

/// The state of a [`WalTailBuffer`]: the files of each writer, and up to where each
/// writer's files are persisted.
pub struct Tails<S> {
    pub files: Map<Seq<char>, Map<u64, S>>,
    pub persisted: Map<Seq<char>, u64>,
}

/// The files of a writer.
pub open spec fn files_of_writer<S>(
    files: Map<Seq<char>, Map<u64, S>>,
    writer: Seq<char>,
) -> Map<u64, S> {
    if files.contains_key(writer) {
        files[writer]
    } else {
        Map::empty()
    }
}

/// The state once the files of a writer up to `seq` are persisted. A mark that is not
/// higher than the one before changes nothing.
pub open spec fn after_persisted<S>(t: Tails<S>, writer: Seq<char>, seq: u64) -> Tails<S> {
    let persisted = raised(t.persisted, writer, seq);
    if seq > mark_of(t.persisted, writer) && t.files.contains_key(writer) {
        Tails { files: t.files.insert(writer, beyond(t.files[writer], seq)), persisted }
    } else {
        Tails { files: t.files, persisted }
    }
}

/// The state once a replayed file of a writer is kept, within the cap.
pub open spec fn after_added<S>(
    t: Tails<S>,
    writer: Seq<char>,
    seq: u64,
    state: S,
    cap: nat,
) -> Tails<S> {
    let kept = newest(files_of_writer(t.files, writer).insert(seq, state), cap);
    Tails { files: t.files.insert(writer, kept), ..t }
}

/// The log tails of the writers.
#[derive(Debug)]
pub struct WalTailBuffer<S> {
    writer_node_ids: Vec<String>,
    max_files_per_writer: usize,
    tails: Vec<(String, WriterTail<S>)>,
    persisted: NodeMarks,
}

impl<S> View for WalTailBuffer<S> {
    type V = Tails<S>;

    closed spec fn view(&self) -> Tails<S> {
        Tails {
            files: Map::new(
                |n: Seq<char>| lookup(self.tails@, n) is Some,
                |n: Seq<char>| lookup(self.tails@, n)->0@,
            ),
            persisted: self.persisted@,
        }
    }
}

impl<S> WalTailBuffer<S> {
    /// The writers whose tails are kept.
    pub closed spec fn writers(self) -> Seq<String> {
        self.writer_node_ids@
    }

    /// How many files are kept for each writer at most.
    pub closed spec fn cap(self) -> usize {
        self.max_files_per_writer
    }

    /// Keeps no files yet. At least one file is kept for each writer.
    pub fn new(writer_node_ids: Vec<String>, max_files_per_writer: usize) -> (r: WalTailBuffer<S>)
        ensures
            r.writers() == writer_node_ids@,
            r.cap() == if max_files_per_writer < 1 {
                1
            } else {
                max_files_per_writer
            },
            r@.files == Map::<Seq<char>, Map<u64, S>>::empty(),
            r@.persisted == Map::<Seq<char>, u64>::empty(),
    {
        let cap: usize = if max_files_per_writer < 1 {
            1
        } else {
            max_files_per_writer
        };
        let r = WalTailBuffer {
            writer_node_ids,
            max_files_per_writer: cap,
            tails: Vec::new(),
            persisted: NodeMarks::new(),
        };
        proof {
            assert(r@.files =~= Map::<Seq<char>, Map<u64, S>>::empty());
        }
        r
    }

    /// The writers whose tails are kept.
    pub fn writer_node_ids(&self) -> (r: &Vec<String>)
        ensures
            r@ == self.writers(),
    {
        &self.writer_node_ids
    }

    fn position(&self, writer: &str) -> (r: Option<usize>)
        ensures
            match r {
                Some(i) => i < self.tails@.len() && self.tails@[i as int].0@ == writer@ && lookup(
                    self.tails@,
                    writer@,
                ) == Some(self.tails@[i as int].1) && (forall|j: int|
                    0 <= j < i ==> (#[trigger] self.tails@[j]).0@ != writer@),
                None => lookup(self.tails@, writer@) is None,
            },
    {
        let wanted = writer.to_owned();
        let mut i: usize = 0;
        while i < self.tails.len()
            invariant
                i <= self.tails.len(),
                wanted@ == writer@,
                forall|j: int| 0 <= j < i ==> (#[trigger] self.tails@[j]).0@ != writer@,
            decreases self.tails.len() - i,
        {
            if self.tails[i].0 == wanted {
                proof {
                    lookup_hit(self.tails@, writer@, i as int);
                }
                return Some(i);
            }
            i += 1;
        }
        proof {
            lookup_miss(self.tails@, writer@);
        }
        None
    }

    /// Takes note that the files of a writer up to `seq` are persisted, and drops them.
    pub fn evict_up_to(&mut self, writer_node_id: &str, seq: u64)
        ensures
            final(self)@ == after_persisted(old(self)@, writer_node_id@, seq),
            final(self).writers() == old(self).writers(),
            final(self).cap() == old(self).cap(),
    {
        let known: u64 = match self.persisted.get(writer_node_id) {
            Some(m) => m,
            None => 0,
        };
        self.persisted.raise(writer_node_id, seq);
        if seq <= known {
            return;
        }
        let ghost before = self.tails@;
        let ghost start = self@.files;
        if let Some(i) = self.position(writer_node_id) {
            self.tails[i].1.drop_up_to(seq);
            proof {
                self.tail_replaced(before, start, i as int, writer_node_id@);
            }
        }
    }

    /// Replacing the first pair of a writer replaces what the map holds for it.
    proof fn tail_replaced(
        self,
        before: Seq<(String, WriterTail<S>)>,
        start: Map<Seq<char>, Map<u64, S>>,
        i: int,
        writer: Seq<char>,
    )
        requires
            0 <= i < before.len(),
            self.tails@ == before.update(i, self.tails@[i]),
            self.tails@[i].0@ == writer,
            before[i].0@ == writer,
            forall|j: int| 0 <= j < i ==> (#[trigger] before[j]).0@ != writer,
            start == Map::new(
                |n: Seq<char>| lookup(before, n) is Some,
                |n: Seq<char>| lookup(before, n)->0@,
            ),
        ensures
            self@.files == start.insert(writer, self.tails@[i].1@),
    {
        let want = start.insert(writer, self.tails@[i].1@);
        lookup_hit(before, writer, i);
        lookup_hit(self.tails@, writer, i);
        assert forall|n: Seq<char>| n != writer implies lookup(self.tails@, n) == #[trigger] lookup(
            before,
            n,
        ) by {
            lookup_update(before, i, self.tails@[i], n);
        }
        assert(self@.files =~= want) by {
            assert forall|n: Seq<char>| self@.files.contains_key(n) == want.contains_key(n) by {
                assert(lookup(before, n) is Some || lookup(before, n) is None);
            }
            assert forall|n: Seq<char>| self@.files.contains_key(n) implies self@.files[n]
                == want[n] by {
                assert(lookup(before, n) is Some || lookup(before, n) is None);
            }
        }
    }

    /// The positions of the log files to replay for a writer: those beyond the newest
    /// file that is kept and beyond what is persisted.
    pub fn wanted(&self, writer: &str, paths: &Vec<String>) -> (r: Vec<usize>)
        ensures
            forall|i: int| 0 <= i < r.len() ==> (#[trigger] r@[i] as int) < paths.len(),
            forall|i: int, j: int| 0 <= i < j < r.len() ==> r@[i] < r@[j],
            forall|i: int|
                0 <= i < paths.len() ==> (r@.contains(i as usize) <==> is_wanted(
                    self@,
                    writer@,
                    (#[trigger] paths@[i])@,
                )),
    {
        let at: Option<usize> = self.position(writer);
        let cursor: u64 = match at {
            Some(i) => self.tails[i].1.cursor(),
            None => 0,
        };
        let mark: u64 = match self.persisted.get(writer) {
            Some(m) => m,
            None => 0,
        };
        proof {
            assert(is_cursor(files_of_writer(self@.files, writer@), cursor)) by {
                if at is None {
                    assert(files_of_writer(self@.files, writer@).dom() =~= Set::<u64>::empty());
                }
            }
        }
        let mut out: Vec<usize> = Vec::new();
        let mut i: usize = 0;
        while i < paths.len()
            invariant
                i <= paths.len(),
                is_cursor(files_of_writer(self@.files, writer@), cursor),
                mark == mark_of(self@.persisted, writer@),
                forall|k: int| 0 <= k < out.len() ==> (#[trigger] out@[k] as int) < i,
                forall|k: int, j: int| 0 <= k < j < out.len() ==> out@[k] < out@[j],
                forall|k: int|
                    0 <= k < i ==> (out@.contains(k as usize) <==> is_wanted(
                        self@,
                        writer@,
                        (#[trigger] paths@[k])@,
                    )),
            decreases paths.len() - i,
        {
            let ghost before = out@;
            let fetch: bool = match parse_wal_seq(paths[i].as_str()) {
                Some(seq) => seq > cursor && seq > mark,
                None => false,
            };
            proof {
                wanted_by_cursor(self@, writer@, paths@[i as int]@, cursor);
            }
            if fetch {
                out.push(i);
            }
            proof {
                assert forall|k: int| 0 <= k < i + 1 implies (out@.contains(k as usize)
                    <==> is_wanted(self@, writer@, (#[trigger] paths@[k])@)) by {
                    if k < i {
                        if before.contains(k as usize) {
                            let a = choose|a: int| 0 <= a < before.len() && before[a] == k as usize;
                            assert(out@[a] == k as usize);
                        }
                        if out@.contains(k as usize) {
                            let a = choose|a: int| 0 <= a < out@.len() && out@[a] == k as usize;
                            assert(before[a] == k as usize);
                        }
                    } else {
                        if fetch {
                            assert(out@[before.len() as int] == i);
                        } else if out@.contains(i) {
                            let a = choose|a: int| 0 <= a < out@.len() && out@[a] == i;
                            assert(before[a] < i);
                        }
                    }
                }
            }
            i += 1;
        }
        out
    }

    /// Keeps a replayed log file of a writer, within the cap. Returns the files that the
    /// cap dropped although they are not persisted.
    pub fn add_file(&mut self, writer: &str, seq: u64, state: S) -> (r: Vec<u64>)
        ensures
            final(self).writers() == old(self).writers(),
            final(self).cap() == old(self).cap(),
            ({
                let full = files_of_writer(old(self)@.files, writer@).insert(seq, state);
                let kept = newest(full, old(self).cap() as nat);
                &&& final(self)@ == after_added(
                    old(self)@,
                    writer@,
                    seq,
                    state,
                    old(self).cap() as nat,
                )
                &&& forall|k: u64| #[trigger]
                    r@.contains(k) <==> full.contains_key(k) && !kept.contains_key(k) && k
                        > mark_of(old(self)@.persisted, writer@)
            }),
    {
        let mark: u64 = match self.persisted.get(writer) {
            Some(m) => m,
            None => 0,
        };
        let cap: usize = self.max_files_per_writer;
        let ghost before = self.tails@;
        let ghost start = self@.files;
        match self.position(writer) {
            Some(i) => {
                let lost = self.tails[i].1.add_file(seq, state, cap, mark);
                proof {
                    self.tail_replaced(before, start, i as int, writer@);
                }
                lost
            },
            None => {
                let mut tail: WriterTail<S> = WriterTail::new();
                let lost = tail.add_file(seq, state, cap, mark);
                self.tails.push((writer.to_owned(), tail));
                proof {
                    assert(files_of_writer(start, writer@) == Map::<u64, S>::empty());
                    let want = start.insert(writer@, tail@);
                    assert forall|n: Seq<char>| lookup(self.tails@, n) == match #[trigger] lookup(
                        before,
                        n,
                    ) {
                        Some(m) => Some(m),
                        None => if n == writer@ {
                            Some(tail)
                        } else {
                            None::<WriterTail<S>>
                        },
                    } by {
                        lookup_push(before, self.tails@.last(), n);
                    }
                    assert(self@.files =~= want) by {
                        assert forall|n: Seq<char>| self@.files.contains_key(n)
                            == want.contains_key(n) by {
                            assert(lookup(before, n) is Some || lookup(before, n) is None);
                        }
                        assert forall|n: Seq<char>| self@.files.contains_key(n) implies
                            self@.files[n] == want[n] by {
                            assert(lookup(before, n) is Some || lookup(before, n) is None);
                        }
                    }
                }
                lost
            },
        }
    }
}

/// A replayed log file of a writer.
pub struct ReplayedFile<'a, S> {
    pub writer: &'a String,
    pub sequence: u64,
    pub state: &'a S,
}

impl<S> WalTailBuffer<S> {
    /// Every file that is kept, those of each writer oldest first, so that newer rows come
    /// later.
    pub fn states(&self) -> (r: Vec<ReplayedFile<'_, S>>)
        ensures
            forall|i: int|
                0 <= i < r.len() ==> is_kept(
                    self@.files,
                    (#[trigger] r@[i]).writer@,
                    r@[i].sequence,
                ) && self@.files[r@[i].writer@][r@[i].sequence] == *r@[i].state,
            forall|w: Seq<char>, k: u64| #[trigger]
                is_kept(self@.files, w, k) ==> exists|i: int|
                    0 <= i < r.len() && (#[trigger] r@[i]).writer@ == w && r@[i].sequence == k,
            forall|i: int, j: int|
                0 <= i < j < r.len() && r@[i].writer@ == r@[j].writer@ ==> r@[i].sequence
                    < r@[j].sequence,
    {
        let mut out: Vec<ReplayedFile<'_, S>> = Vec::new();
        let mut t: usize = 0;
        while t < self.tails.len()
            invariant
                t <= self.tails.len(),
                forall|i: int|
                    0 <= i < out.len() ==> is_kept(
                        self@.files,
                        (#[trigger] out@[i]).writer@,
                        out@[i].sequence,
                    ) && self@.files[out@[i].writer@][out@[i].sequence] == *out@[i].state,
                forall|i: int|
                    0 <= i < out.len() ==> named_before(
                        self.tails@,
                        t as int,
                        (#[trigger] out@[i]).writer@,
                    ),
                forall|w: Seq<char>, k: u64| #[trigger]
                    is_kept(self@.files, w, k) && named_before(self.tails@, t as int, w)
                        ==> exists|i: int|
                        0 <= i < out.len() && (#[trigger] out@[i]).writer@ == w
                            && out@[i].sequence == k,
                forall|i: int, j: int|
                    0 <= i < j < out.len() && out@[i].writer@ == out@[j].writer@
                        ==> out@[i].sequence < out@[j].sequence,
            decreases self.tails.len() - t,
        {
            let writer = &self.tails[t].0;
            let ghost done = out@;
            let at: Option<usize> = self.position(writer.as_str());
            // Only the first entry of a writer counts.
            let first: bool = match at {
                Some(i) => i == t,
                None => false,
            };
            proof {
                assert forall|w: Seq<char>| #[trigger]
                    named_before(self.tails@, t + 1, w) == (named_before(self.tails@, t as int, w)
                        || w == writer@) by {
                    if named_before(self.tails@, t as int, w) {
                        let i = choose|i: int|
                            0 <= i < t && (#[trigger] self.tails@[i]).0@ == w;
                        assert(self.tails@[i].0@ == w);
                    }
                    if w == writer@ {
                        assert(self.tails@[t as int].0@ == w);
                    }
                    if named_before(self.tails@, t + 1, w) {
                        let i = choose|i: int|
                            0 <= i < t + 1 && (#[trigger] self.tails@[i]).0@ == w;
                        if i < t {
                            assert(self.tails@[i].0@ == w);
                        }
                    }
                }
                if !first {
                    if at is None {
                        crate::watermarks::lookup_of_member(self.tails@, t as int);
                    } else {
                        let i = at->0;
                        assert(i < t) by {
                            if i > t {
                                assert(self.tails@[t as int].0@ != writer@);
                            }
                        }
                        assert(self.tails@[i as int].0@ == writer@);
                        assert(named_before(self.tails@, t as int, writer@));
                    }
                }
            }
            if first {
                let ghost files = self.tails@[t as int].1@;
                proof {
                    lookup_hit(self.tails@, writer@, t as int);
                    assert(self@.files[writer@] == files);
                    assert(!named_before(self.tails@, t as int, writer@));
                }
                let states = self.tails[t].1.states();
                let mut n: usize = 0;
                while n < states.len()
                    invariant
                        n <= states.len(),
                        t < self.tails.len(),
                        writer@ == self.tails@[t as int].0@,
                        self@.files.contains_key(writer@),
                        self@.files[writer@] == files,
                        !named_before(self.tails@, t as int, writer@),
                        out.len() == done.len() + n,
                        forall|i: int| 0 <= i < done.len() ==> out@[i] == done[i],
                        forall|i: int|
                            0 <= i < done.len() ==> named_before(
                                self.tails@,
                                t as int,
                                (#[trigger] done[i]).writer@,
                            ),
                        forall|i: int|
                            0 <= i < states.len() ==> files.contains_key((#[trigger] states@[i]).0)
                                && files[states@[i].0] == *states@[i].1,
                        forall|i: int|
                            0 <= i < n ==> (#[trigger] out@[done.len() + i]).writer@ == writer@
                                && out@[done.len() + i].sequence == states@[i].0
                                && *out@[done.len() + i].state == *states@[i].1,
                    decreases states.len() - n,
                {
                    out.push(
                        ReplayedFile { writer, sequence: states[n].0, state: states[n].1 },
                    );
                    n += 1;
                }
                proof {
                    self.states_extend(done, out@, states@, files, t as int);
                }
            }
            t += 1;
        }
        proof {
            assert forall|w: Seq<char>, k: u64| #[trigger]
                is_kept(self@.files, w, k) implies exists|i: int|
                0 <= i < out.len() && (#[trigger] out@[i]).writer@ == w && out@[i].sequence == k by {
                crate::watermarks::lookup_member(self.tails@, w);
                let i = choose|i: int|
                    0 <= i < self.tails@.len() && (#[trigger] self.tails@[i]).0@ == w;
                assert(named_before(self.tails@, t as int, w));
            }
        }
        out
    }

    proof fn states_extend<'a>(
        self,
        done: Seq<ReplayedFile<'a, S>>,
        out: Seq<ReplayedFile<'a, S>>,
        states: Seq<(u64, &'a S)>,
        files: Map<u64, S>,
        t: int,
    )
        requires
            0 <= t < self.tails@.len(),
            self@.files.contains_key(self.tails@[t].0@),
            self@.files[self.tails@[t].0@] == files,
            !named_before(self.tails@, t, self.tails@[t].0@),
            out.len() == done.len() + states.len(),
            forall|i: int| 0 <= i < done.len() ==> out[i] == done[i],
            forall|i: int|
                0 <= i < done.len() ==> is_kept(
                    self@.files,
                    (#[trigger] done[i]).writer@,
                    done[i].sequence,
                ) && self@.files[done[i].writer@][done[i].sequence] == *done[i].state,
            forall|i: int|
                0 <= i < done.len() ==> named_before(self.tails@, t, (#[trigger] done[i]).writer@),
            forall|w: Seq<char>, k: u64| #[trigger]
                is_kept(self@.files, w, k) && named_before(self.tails@, t, w) ==> exists|i: int|
                    0 <= i < done.len() && (#[trigger] done[i]).writer@ == w && done[i].sequence == k,
            forall|i: int, j: int|
                0 <= i < j < done.len() && done[i].writer@ == done[j].writer@ ==> done[i].sequence
                    < done[j].sequence,
            forall|i: int|
                0 <= i < states.len() ==> files.contains_key((#[trigger] states[i]).0)
                    && files[states[i].0] == *states[i].1,
            forall|k: u64| #[trigger]
                files.contains_key(k) ==> exists|i: int|
                    0 <= i < states.len() && (#[trigger] states[i]).0 == k,
            forall|i: int, j: int| 0 <= i < j < states.len() ==> states[i].0 < states[j].0,
            forall|i: int|
                0 <= i < states.len() ==> (#[trigger] out[done.len() + i]).writer@
                    == self.tails@[t].0@ && out[done.len() + i].sequence == states[i].0
                    && *out[done.len() + i].state == *states[i].1,
            forall|w: Seq<char>| #[trigger]
                named_before(self.tails@, t + 1, w) == (named_before(self.tails@, t, w) || w
                    == self.tails@[t].0@),
        ensures
            forall|i: int|
                0 <= i < out.len() ==> is_kept(
                    self@.files,
                    (#[trigger] out[i]).writer@,
                    out[i].sequence,
                ) && self@.files[out[i].writer@][out[i].sequence] == *out[i].state,
            forall|i: int|
                0 <= i < out.len() ==> named_before(self.tails@, t + 1, (#[trigger] out[i]).writer@),
            forall|w: Seq<char>, k: u64| #[trigger]
                is_kept(self@.files, w, k) && named_before(self.tails@, t + 1, w) ==> exists|i: int|
                    0 <= i < out.len() && (#[trigger] out[i]).writer@ == w && out[i].sequence == k,
            forall|i: int, j: int|
                0 <= i < j < out.len() && out[i].writer@ == out[j].writer@ ==> out[i].sequence
                    < out[j].sequence,
    {
        let writer = self.tails@[t].0@;
        let n = done.len() as int;
        assert forall|i: int| 0 <= i < out.len() implies is_kept(
            self@.files,
            (#[trigger] out[i]).writer@,
            out[i].sequence,
        ) && self@.files[out[i].writer@][out[i].sequence] == *out[i].state && named_before(
            self.tails@,
            t + 1,
            out[i].writer@,
        ) by {
            if i < n {
                assert(out[i] == done[i]);
            } else {
                let m = i - n;
                assert(out[n + m].writer@ == writer);
                assert(files.contains_key(states[m].0));
            }
        }
        assert forall|w: Seq<char>, k: u64| #[trigger]
            is_kept(self@.files, w, k) && named_before(self.tails@, t + 1, w) implies exists|i: int|
            0 <= i < out.len() && (#[trigger] out[i]).writer@ == w && out[i].sequence == k by {
            if named_before(self.tails@, t, w) {
                let i = choose|i: int|
                    0 <= i < done.len() && (#[trigger] done[i]).writer@ == w && done[i].sequence == k;
                assert(out[i] == done[i]);
            } else {
                assert(files.contains_key(k));
                let m = choose|m: int| 0 <= m < states.len() && (#[trigger] states[m]).0 == k;
                assert(out[n + m].writer@ == writer);
            }
        }
        assert forall|i: int, j: int|
            0 <= i < j < out.len() && out[i].writer@ == out[j].writer@ implies out[i].sequence
            < out[j].sequence by {
            if j < n {
                assert(out[i] == done[i] && out[j] == done[j]);
            } else {
                assert(out[n + (j - n)].writer@ == writer);
                if i < n {
                    assert(out[i] == done[i]);
                    assert(named_before(self.tails@, t, done[i].writer@));
                } else {
                    assert(out[n + (i - n)].writer@ == writer);
                }
            }
        }
    }
}

/// The log file of a writer is kept.
pub open spec fn is_kept<S>(
    files: Map<Seq<char>, Map<u64, S>>,
    writer: Seq<char>,
    sequence: u64,
) -> bool {
    files.contains_key(writer) && files[writer].contains_key(sequence)
}

/// One of the first `t` pairs names the writer.
spec fn named_before<S>(
    tails: Seq<(String, WriterTail<S>)>,
    t: int,
    writer: Seq<char>,
) -> bool {
    exists|i: int| 0 <= i < t && (#[trigger] tails[i]).0@ == writer
}

/// The log file is beyond every file of the writer that is kept, and beyond what is
/// persisted.
pub open spec fn is_wanted<S>(t: Tails<S>, writer: Seq<char>, path: Seq<char>) -> bool {
    match wal_sequence(path) {
        Some(seq) => seq > 0 && seq > mark_of(t.persisted, writer) && forall|k: u64| #[trigger]
            files_of_writer(t.files, writer).contains_key(k) ==> k < seq,
        None => false,
    }
}

proof fn wanted_by_cursor<S>(t: Tails<S>, writer: Seq<char>, path: Seq<char>, cursor: u64)
    requires
        is_cursor(files_of_writer(t.files, writer), cursor),
    ensures
        is_wanted(t, writer, path) == match wal_sequence(path) {
            Some(seq) => seq > cursor && seq > mark_of(t.persisted, writer),
            None => false,
        },
{
    if wal_sequence(path) is Some {
        let seq = wal_sequence(path)->0;
        let files = files_of_writer(t.files, writer);
        if files.contains_key(cursor) {
        } else {
            assert forall|k: u64| !files.contains_key(k) by {
                assert(!files.dom().contains(k));
            }
        }
    }
}

/// The mark of what is persisted never goes down.
pub proof fn persisted_mark_is_monotone<S>(
    t: Tails<S>,
    writer: Seq<char>,
    seq: u64,
    other: Seq<char>,
)
    ensures
        mark_of(after_persisted(t, writer, seq).persisted, other) >= mark_of(t.persisted, other),
        mark_of(after_persisted(t, writer, seq).persisted, writer) >= seq,
{
}

/// What a manifest covers is dropped, and only that.
pub proof fn eviction_drops_what_is_covered<S>(t: Tails<S>, writer: Seq<char>, seq: u64, k: u64)
    requires
        seq > mark_of(t.persisted, writer),
    ensures
        files_of_writer(after_persisted(t, writer, seq).files, writer).contains_key(k)
            == (files_of_writer(t.files, writer).contains_key(k) && k > seq),
{
}

/// Every file of the tails is still to be persisted, as far as is known.
pub open spec fn is_unpersisted<S>(t: Tails<S>) -> bool {
    forall|w: Seq<char>, k: u64| #[trigger]
        files_of_writer(t.files, w).contains_key(k) ==> k > mark_of(t.persisted, w)
}

/// The tails hold nothing that is persisted, once what a manifest covers is dropped.
pub proof fn persisting_keeps_unpersisted<S>(t: Tails<S>, writer: Seq<char>, seq: u64)
    requires
        is_unpersisted(t),
    ensures
        is_unpersisted(after_persisted(t, writer, seq)),
{
    let after = after_persisted(t, writer, seq);
    assert forall|w: Seq<char>, k: u64| #[trigger]
        files_of_writer(after.files, w).contains_key(k) implies k > mark_of(after.persisted, w) by {
        assert(files_of_writer(t.files, w).contains_key(k));
    }
}

/// The tails hold nothing that is persisted, once a file is added that is not. So a file that
/// the cap drops is one whose rows are missing from queries for now.
pub proof fn adding_keeps_unpersisted<S>(
    t: Tails<S>,
    writer: Seq<char>,
    seq: u64,
    state: S,
    cap: nat,
)
    requires
        is_unpersisted(t),
        files_of_writer(t.files, writer).dom().finite(),
        seq > mark_of(t.persisted, writer),
    ensures
        is_unpersisted(after_added(t, writer, seq, state, cap)),
        forall|k: u64| #[trigger]
            files_of_writer(t.files, writer).insert(seq, state).contains_key(k) ==> k > mark_of(
                t.persisted,
                writer,
            ),
{
    let full = files_of_writer(t.files, writer).insert(seq, state);
    cap_keeps_newest(full, cap);
    let after = after_added(t, writer, seq, state, cap);
    assert forall|k: u64| #[trigger] full.contains_key(k) implies k > mark_of(
        t.persisted,
        writer,
    ) by {
        if k != seq {
            assert(files_of_writer(t.files, writer).contains_key(k));
        }
    }
    assert forall|w: Seq<char>, k: u64| #[trigger]
        files_of_writer(after.files, w).contains_key(k) implies k > mark_of(after.persisted, w) by {
        if w == writer {
            assert(newest(full, cap).contains_key(k));
            assert(full.contains_key(k));
        } else {
            assert(files_of_writer(t.files, w).contains_key(k));
        }
    }
}

} // verus!

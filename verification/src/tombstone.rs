//! Tombstones: what a removal leaves behind when it arrives ahead of the file
//! that it removes.

use vstd::prelude::*;
use vstd::string::*;

use crate::text::{
    chars_of, decimal_value, ends_with, is_number, is_numeric, read_digits, same_text, segments,
    split_on, split_text, text_before, text_lt, texts, without_suffix,
};
use crate::watermarks::{reaches, NodeMarks};

verus! {

/// When a tombstone may be dropped: once no manifest can list the file again.
#[derive(Debug)]
pub enum TombstoneGc {
    /// A file that a writer persisted: droppable once the writer's high-water
    /// mark reaches the sequence number that the file was persisted under.
    WalSeq { node_id: String, wal_seq: u64 },
    /// A file that a compactor wrote: droppable once the compaction high-water
    /// mark reaches the id of the compaction that removed it.
    Compaction { removing_id: String },
    /// A file known to be gone from object storage. No high-water mark bounds
    /// when it may be listed again; the number of these is bounded instead.
    ObjectGone,
}

/// What a [`TombstoneGc`] holds.
pub enum TombstoneKey {
    WalSeq { node_id: Seq<char>, wal_seq: u64 },
    Compaction { removing_id: Seq<char> },
    ObjectGone,
}

impl View for TombstoneGc {
    type V = TombstoneKey;

    open spec fn view(&self) -> TombstoneKey {
        match *self {
            TombstoneGc::WalSeq { node_id, wal_seq } => TombstoneKey::WalSeq {
                node_id: node_id@,
                wal_seq,
            },
            TombstoneGc::Compaction { removing_id } => TombstoneKey::Compaction {
                removing_id: removing_id@,
            },
            TombstoneGc::ObjectGone => TombstoneKey::ObjectGone,
        }
    }
}

/// The tombstone is still needed under these high-water marks.
pub open spec fn still_needed(
    key: TombstoneKey,
    wal_high_water: Map<Seq<char>, u64>,
    compactions_high_water: Option<Seq<char>>,
) -> bool {
    match key {
        TombstoneKey::WalSeq { node_id, wal_seq } => !reaches(wal_high_water, node_id, wal_seq),
        TombstoneKey::Compaction { removing_id } => match compactions_high_water {
            Some(mark) => text_lt(mark, removing_id),
            None => true,
        },
        TombstoneKey::ObjectGone => true,
    }
}

/// The view of an optional string.
pub open spec fn opt_text(s: Option<&str>) -> Option<Seq<char>> {
    match s {
        Some(t) => Some(t@),
        None => None,
    }
}

impl TombstoneGc {
    /// Whether the tombstone is still needed under these high-water marks.
    pub fn is_needed(&self, wal_high_water: &NodeMarks, compactions_high_water: Option<&str>) -> (r:
        bool)
        ensures
            r == still_needed(self@, wal_high_water@, opt_text(compactions_high_water)),
    {
        match self {
            TombstoneGc::WalSeq { node_id, wal_seq } => {
                match wal_high_water.get(node_id.as_str()) {
                    Some(mark) => mark < *wal_seq,
                    None => true,
                }
            },
            TombstoneGc::Compaction { removing_id } => match compactions_high_water {
                Some(mark) => text_before(mark, removing_id.as_str()),
                None => true,
            },
            TombstoneGc::ObjectGone => true,
        }
    }
}

/// A sequence number as file names have it: in decimal, padded with zeros to ten digits.
pub open spec fn is_padded_number(s: Seq<char>) -> bool {
    is_number(s) && (s.len() == 10 || (s.len() > 10 && s[0] != '0'))
}

/// The numbers in the name of a file that a writer persisted: its sequence number and, where
/// a snapshot was split into several files, which of them it is.
pub open spec fn are_file_numbers(numbers: Seq<Seq<char>>) -> bool {
    &&& 1 <= numbers.len() <= 2
    &&& is_padded_number(numbers[0])
    &&& numbers.len() == 2 ==> is_number(numbers[1])
}

/// The segments are those of `<node_id>/dbs/<db>/<table>/<date>/<hour>/<name>`.
pub open spec fn is_writer_layout(parts: Seq<Seq<char>>) -> bool {
    &&& parts.len() == 7
    &&& forall|i: int| 0 <= i < parts.len() ==> (#[trigger] parts[i]).len() > 0
    &&& parts[1] == "dbs"@
}

/// The writer and the sequence number of a file that a writer persisted:
/// `<node_id>/dbs/<db>/<table>/<date>/<hour>/<wal_seq>[-<ordinal>].parquet`, the sequence
/// number padded to ten digits.
pub open spec fn gen1_path(path: Seq<char>) -> Option<(Seq<char>, u64)> {
    let parts = segments(path);
    let name = parts.last();
    let numbers = split_on(name.take(name.len() - ".parquet"@.len()), '-');
    if is_writer_layout(parts) && ends_with(name, ".parquet"@) && are_file_numbers(numbers)
        && decimal_value(numbers[0]) <= u64::MAX {
        Some((parts[0], decimal_value(numbers[0]) as u64))
    } else {
        None
    }
}

fn has_writer_layout(parts: &Vec<String>) -> (r: bool)
    ensures
        r == is_writer_layout(texts(parts@)),
{
    let ghost list = texts(parts@);
    proof {
        assert(forall|i: int| 0 <= i < parts.len() ==> list[i] == parts@[i]@);
    }
    if parts.len() != 7 {
        return false;
    }
    let mut i: usize = 0;
    while i < parts.len()
        invariant
            i <= parts.len(),
            list == texts(parts@),
            forall|j: int| 0 <= j < i ==> (#[trigger] list[j]).len() > 0,
        decreases parts.len() - i,
    {
        if parts[i].as_str().unicode_len() == 0 {
            proof {
                assert(list[i as int].len() == 0);
            }
            return false;
        }
        i += 1;
    }
    same_text(parts[1].as_str(), "dbs")
}

/// The sequence number that the name of a file has, where it is that of a file that a writer
/// persisted.
fn read_file_numbers(stem: &str) -> (r: Option<u64>)
    ensures
        ({
            let numbers = split_on(stem@, '-');
            r == if are_file_numbers(numbers) && decimal_value(numbers[0]) <= u64::MAX {
                Some(decimal_value(numbers[0]) as u64)
            } else {
                None
            }
        }),
{
    let numbers = split_text(stem, '-');
    proof {
        assert(forall|i: int| 0 <= i < numbers.len() ==> texts(numbers@)[i] == numbers@[i]@);
    }
    if numbers.len() > 2 {
        return None;
    }
    if numbers.len() == 2 && !is_numeric(numbers[1].as_str()) {
        return None;
    }
    let cs = chars_of(numbers[0].as_str());
    proof {
        assert(cs@.subrange(0, cs@.len() as int) =~= cs@);
        assert(texts(numbers@)[0] == cs@);
    }
    if cs.len() < 10 || (cs.len() > 10 && cs[0] == '0') {
        return None;
    }
    read_digits(&cs, 0, cs.len(), u64::MAX)
}

/// The writer and the sequence number that a path names, where it is that of a
/// file that a writer persisted. The files that a compactor writes are not.
pub fn parse_gen1_path(path: &str) -> (r: Option<(String, u64)>)
    ensures
        match r {
            Some((node_id, wal_seq)) => gen1_path(path@) == Some((node_id@, wal_seq)),
            None => gen1_path(path@) is None,
        },
{
    let parts = split_text(path, '/');
    if !has_writer_layout(&parts) {
        return None;
    }
    proof {
        assert(texts(parts@)[0] == parts@[0]@);
        assert(texts(parts@).last() == parts@[6]@);
    }
    match without_suffix(parts[6].as_str(), ".parquet") {
        Some(stem) => match read_file_numbers(stem.as_str()) {
            Some(wal_seq) => Some((parts[0].clone(), wal_seq)),
            None => None,
        },
        None => None,
    }
}

/// The tombstone that the removal of an absent file leaves, if any: by sequence
/// number for a file that a writer persisted, by the removing compaction, where
/// it is known, for any other.
pub open spec fn tombstone_for(path: Seq<char>, source: Option<Seq<char>>) -> Option<TombstoneKey> {
    match gen1_path(path) {
        Some((node_id, wal_seq)) => Some(TombstoneKey::WalSeq { node_id, wal_seq }),
        None => match source {
            Some(removing_id) => Some(TombstoneKey::Compaction { removing_id }),
            None => None,
        },
    }
}

/// The tombstone that the removal of an absent file leaves, if any.
pub fn make_tombstone(path: &str, source: Option<&str>) -> (r: Option<TombstoneGc>)
    ensures
        match r {
            Some(gc) => tombstone_for(path@, opt_text(source)) == Some(gc@),
            None => tombstone_for(path@, opt_text(source)) is None,
        },
{
    match parse_gen1_path(path) {
        Some((node_id, wal_seq)) => Some(TombstoneGc::WalSeq { node_id, wal_seq }),
        None => match source {
            Some(id) => Some(TombstoneGc::Compaction { removing_id: id.to_owned() }),
            None => None,
        },
    }
}

} // verus!

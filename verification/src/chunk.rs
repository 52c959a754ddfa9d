//! How chunks of a table relate: the partition that they share, and which of two
//! is the newer.

use vstd::prelude::*;
use vstd::string::*;

use crate::files::{DbId, ParquetFile, TableId};
use crate::text::{
    decimal_text, decimal_text_denotes, ends_with, is_digit, is_number, is_numeric, is_unsigned,
    last_segment, padded_text, padded_text_denotes, parse_unsigned, path_tail, push_decimal,
    read_unsigned, reads_as_unsigned, segments, split_on, split_on_absent, split_on_join,
    split_text, starts_with, texts, without_prefix, without_suffix,
};

verus! {

/// What the partition id of a chunk is made from.
#[derive(Debug, PartialEq, Eq)]
pub struct TablePartition {
    pub table: i64,
    pub key: String,
}

/// The partition key of a table: database and table, in decimal, with a slash
/// between them.
pub open spec fn partition_key(db_id: DbId, table_id: TableId) -> Seq<char> {
    decimal_text(db_id as nat) + "/"@ + decimal_text(table_id as nat)
}

/// The partition of a table. There is one for each table, shared by every source of
/// chunks: rows are only deduplicated within a partition.
pub fn table_partition_id(db_id: DbId, table_id: TableId) -> (r: TablePartition)
    ensures
        r.table == 0,
        r.key@ == partition_key(db_id, table_id),
{
    let mut key = String::new();
    push_decimal(&mut key, db_id as u64);
    key.append("/");
    push_decimal(&mut key, table_id as u64);
    proof {
        assert(key@ =~= partition_key(db_id, table_id));
    }
    TablePartition { table: 0, key }
}

/// A segment that names a generation: `gen`, then a number.
pub open spec fn names_generation(segment: Seq<char>) -> bool {
    starts_with(segment, "gen"@) && is_unsigned(segment.skip(3))
}

/// The number of the first segment from `i` on that names a generation. The last segment is
/// the name of the file, and does not count.
pub open spec fn first_generation(parts: Seq<Seq<char>>, i: int) -> Option<Seq<char>>
    decreases parts.len() - i,
{
    if i + 1 >= parts.len() {
        None
    } else if names_generation(parts[i]) {
        Some(parts[i].skip(3))
    } else {
        first_generation(parts, i + 1)
    }
}

/// The number in the generation segment, as it stands in the path: the first directory below
/// the topmost that is named `gen` and a number.
pub open spec fn generation_text(path: Seq<char>) -> Option<Seq<char>> {
    first_generation(segments(path), 1)
}

/// The generation that a path names.
pub open spec fn generation_of(path: Seq<char>) -> Option<u8> {
    match generation_text(path) {
        Some(t) => match parse_unsigned(t, 255) {
            Some(n) => Some(n as u8),
            None => None,
        },
        None => None,
    }
}

/// The first directory that names a generation decides, whatever comes behind it.
pub proof fn first_generation_decides(parts: Seq<Seq<char>>, i: int, at: int)
    requires
        0 <= i <= at,
        at + 1 < parts.len(),
        names_generation(parts[at]),
        forall|k: int| i <= k < at ==> !names_generation(#[trigger] parts[k]),
    ensures
        first_generation(parts, i) == Some(parts[at].skip(3)),
    decreases at - i,
{
    if i < at {
        first_generation_decides(parts, i + 1, at);
    }
}

/// The number in the generation segment, if the path has one.
pub fn find_generation(path: &str) -> (r: Option<String>)
    ensures
        match r {
            Some(t) => generation_text(path@) == Some(t@),
            None => generation_text(path@) is None,
        },
{
    let parts = split_text(path, '/');
    let ghost list = segments(path@);
    let mut i: usize = 1;
    proof {
        reveal_strlit("gen");
    }
    while i < parts.len() - 1
        invariant
            1 <= i,
            parts.len() >= 1,
            list == segments(path@),
            list == texts(parts@),
            "gen"@.len() == 3,
            generation_text(path@) == first_generation(list, i as int),
        decreases parts.len() - i,
    {
        proof {
            assert(list[i as int] == parts@[i as int]@);
        }
        if let Some(number) = without_prefix(parts[i].as_str(), "gen") {
            if reads_as_unsigned(number.as_str()) {
                return Some(number);
            }
        }
        i += 1;
    }
    None
}

/// The generation that a parquet path names (`.../genN/...`). A file that a writer
/// persisted names none.
pub fn parse_generation(path: &str) -> (r: Option<u8>)
    ensures
        r == generation_of(path@),
{
    match find_generation(path) {
        Some(t) => match read_unsigned(t.as_str(), 255) {
            Some(n) => Some(n as u8),
            None => None,
        },
        None => None,
    }
}

/// The sequence number in the name of a parquet file: `<sequence>.parquet`, or, for the parts
/// of a snapshot that was split, `<sequence>-<ordinal>.parquet`.
pub open spec fn file_sequence(path: Seq<char>) -> Option<u64> {
    let name = last_segment(path);
    let numbers = split_on(name.take(name.len() - ".parquet"@.len()), '-');
    if ends_with(name, ".parquet"@) && numbers.len() <= 2 && (numbers.len() == 2 ==> is_number(
        numbers[1],
    )) {
        parse_unsigned(numbers[0], u64::MAX)
    } else {
        None
    }
}

/// The sequence number in the name of a parquet file (`.../0000000598.parquet` and
/// `.../0000000598-1.parquet` give 598). Compacted files have names without one.
pub fn parse_file_sequence(path: &str) -> (r: Option<u64>)
    ensures
        r == file_sequence(path@),
{
    let name = path_tail(path);
    match without_suffix(name.as_str(), ".parquet") {
        Some(stem) => {
            let numbers = split_text(stem.as_str(), '-');
            proof {
                assert(forall|i: int|
                    0 <= i < numbers.len() ==> texts(numbers@)[i] == numbers@[i]@);
            }
            if numbers.len() > 2 || (numbers.len() == 2 && !is_numeric(numbers[1].as_str())) {
                return None;
            }
            read_unsigned(numbers[0].as_str(), u64::MAX)
        },
        None => None,
    }
}

/// The width of the band of chunk orders that each generation has to itself.
pub const CHUNK_ORDER_GEN_BAND: i64 = 1_099_511_627_776;

/// The generation by which a file is ordered, from 1 to 5. A path that names none
/// is of the first.
pub open spec fn order_generation(path: Seq<char>) -> int {
    match generation_of(path) {
        Some(g) => if g < 1 {
            1
        } else if g > 5 {
            5
        } else {
            g as int
        },
        None => 1,
    }
}

/// The place of a file within the band of its generation.
pub open spec fn order_in_band(path: Seq<char>) -> int {
    match file_sequence(path) {
        Some(n) => if n < CHUNK_ORDER_GEN_BAND {
            n as int
        } else {
            CHUNK_ORDER_GEN_BAND - 1
        },
        None => 0,
    }
}

/// The chunk order of a persisted file: one band for each generation, the lowest
/// generation on top.
pub open spec fn chunk_order_of(path: Seq<char>) -> int {
    (5 - order_generation(path)) * CHUNK_ORDER_GEN_BAND + order_in_band(path)
}

/// The chunk order of a persisted file. Of two rows with the same key the one from
/// the chunk with the higher order is kept.
pub fn persisted_chunk_order(file: &ParquetFile) -> (r: i64)
    ensures
        r == chunk_order_of(file.path@),
{
    let generation: i64 = match parse_generation(file.path.as_str()) {
        Some(g) => if g < 1 {
            1
        } else if g > 5 {
            5
        } else {
            g as i64
        },
        None => 1,
    };
    let seq: i64 = match parse_file_sequence(file.path.as_str()) {
        Some(n) => if n < CHUNK_ORDER_GEN_BAND as u64 {
            n as i64
        } else {
            CHUNK_ORDER_GEN_BAND - 1
        },
        None => 0,
    };
    (5 - generation) * CHUNK_ORDER_GEN_BAND + seq
}

/// Tables have the same partition key only if they are the same table.
pub proof fn partitions_are_distinct(d1: DbId, t1: TableId, d2: DbId, t2: TableId)
    requires
        partition_key(d1, t1) == partition_key(d2, t2),
    ensures
        d1 == d2,
        t1 == t2,
{
    reveal_strlit("/");
    assert("/"@ =~= seq!['/']);
    let a = decimal_text(d1 as nat);
    let b = decimal_text(t1 as nat);
    let c = decimal_text(d2 as nat);
    let d = decimal_text(t2 as nat);
    crate::text::decimal_text_denotes(d1 as nat);
    crate::text::decimal_text_denotes(t1 as nat);
    crate::text::decimal_text_denotes(d2 as nat);
    crate::text::decimal_text_denotes(t2 as nat);
    let k1 = a + "/"@ + b;
    let k2 = c + "/"@ + d;
    if a.len() < c.len() {
        assert(k1[a.len() as int] == '/');
        assert(k2[a.len() as int] == c[a.len() as int]);
        assert(crate::text::is_digit(c[a.len() as int]));
    } else if c.len() < a.len() {
        assert(k2[c.len() as int] == '/');
        assert(k1[c.len() as int] == a[c.len() as int]);
        assert(crate::text::is_digit(a[c.len() as int]));
    }
    assert(a =~= k1.take(a.len() as int));
    assert(c =~= k2.take(c.len() as int));
    assert(b =~= k1.skip(a.len() as int + 1));
    assert(d =~= k2.skip(c.len() as int + 1));
}

/// A file of a lower generation is newer than one of a higher generation.
pub proof fn lower_generation_is_newer(a: Seq<char>, b: Seq<char>)
    requires
        order_generation(a) < order_generation(b),
    ensures
        chunk_order_of(a) > chunk_order_of(b),
{
    let x = 5 - order_generation(a);
    let y = 5 - order_generation(b);
    assert(x * CHUNK_ORDER_GEN_BAND >= (y + 1) * CHUNK_ORDER_GEN_BAND) by (nonlinear_arith)
        requires
            x >= y + 1,
    ;
    assert((y + 1) * CHUNK_ORDER_GEN_BAND == y * CHUNK_ORDER_GEN_BAND + CHUNK_ORDER_GEN_BAND)
        by (nonlinear_arith);
}

/// Within a generation the file with the higher sequence number is the newer, as
/// long as the numbers fit the band.
pub proof fn higher_sequence_is_newer(a: Seq<char>, b: Seq<char>)
    requires
        order_generation(a) == order_generation(b),
        file_sequence(a) is Some,
        file_sequence(b) is Some,
        file_sequence(a)->0 < file_sequence(b)->0,
        file_sequence(a)->0 < CHUNK_ORDER_GEN_BAND - 1,
    ensures
        chunk_order_of(a) < chunk_order_of(b),
{
}

/// Everything persisted is ordered at or above zero and below what is still in
/// memory.
pub proof fn persisted_is_below_memory(path: Seq<char>)
    ensures
        0 <= chunk_order_of(path) < i64::MAX - 2,
{
    let g = 5 - order_generation(path);
    assert(0 <= g * CHUNK_ORDER_GEN_BAND <= 4 * CHUNK_ORDER_GEN_BAND) by (nonlinear_arith)
        requires
            0 <= g <= 4,
    ;
}

/// Of two files the one whose path names the lower generation is the newer, and one that names
/// none is newer than any that names the second to the fifth.
pub proof fn lower_named_generation_is_newer(a: Seq<char>, b: Seq<char>)
    requires
        match (generation_of(a), generation_of(b)) {
            (Some(x), Some(y)) => 1 <= x < y <= 5,
            (None, Some(y)) => 2 <= y <= 5,
            _ => false,
        },
    ensures
        chunk_order_of(a) > chunk_order_of(b),
{
    lower_generation_is_newer(a, b);
}

/// Two files of which neither names a generation, or both the same, are ordered by the sequence
/// numbers in their names, as long as these fit the band.
pub proof fn higher_sequence_wins_within_generation(a: Seq<char>, b: Seq<char>)
    requires
        generation_of(a) == generation_of(b),
        file_sequence(a) is Some,
        file_sequence(b) is Some,
        file_sequence(a)->0 < file_sequence(b)->0,
        file_sequence(a)->0 < 1_099_511_627_775,
    ensures
        chunk_order_of(a) < chunk_order_of(b),
{
}

/// The directory that names the generation does so wherever it stands below the topmost, as long
/// as no directory between starts with `gen`, and whatever comes behind it.
pub proof fn generation_is_read_from_its_directory(path: Seq<char>, at: int, n: u8)
    requires
        1 <= at,
        at + 1 < segments(path).len(),
        segments(path)[at] == seq!['g', 'e', 'n'] + decimal_text(n as nat),
        forall|k: int|
            1 <= k < at ==> !starts_with(#[trigger] segments(path)[k], seq!['g', 'e', 'n']),
    ensures
        generation_of(path) == Some(n),
{
    reveal_strlit("gen");
    assert("gen"@ =~= seq!['g', 'e', 'n']);
    let parts = segments(path);
    let t = decimal_text(n as nat);
    decimal_text_denotes(n as nat);
    assert(parts[at].skip(3) =~= t);
    assert(parts[at].take(3) =~= seq!['g', 'e', 'n']);
    assert(is_digit(t[0]));
    first_generation_decides(parts, 1, at);
}

/// A path none of whose directories below the topmost starts with `gen` names no generation.
pub proof fn no_directory_no_generation(path: Seq<char>)
    requires
        forall|k: int|
            1 <= k < segments(path).len() - 1 ==> !starts_with(
                #[trigger] segments(path)[k],
                seq!['g', 'e', 'n'],
            ),
    ensures
        generation_of(path) is None,
{
    reveal_strlit("gen");
    assert("gen"@ =~= seq!['g', 'e', 'n']);
    no_generation_from(segments(path), 1);
}

/// Such a path has no number in a generation segment either.
pub proof fn no_directory_no_text(path: Seq<char>)
    requires
        forall|k: int|
            1 <= k < segments(path).len() - 1 ==> !starts_with(
                #[trigger] segments(path)[k],
                seq!['g', 'e', 'n'],
            ),
    ensures
        generation_text(path) is None,
{
    reveal_strlit("gen");
    assert("gen"@ =~= seq!['g', 'e', 'n']);
    no_generation_from(segments(path), 1);
}

proof fn no_generation_from(parts: Seq<Seq<char>>, i: int)
    requires
        1 <= i,
        forall|k: int|
            1 <= k < parts.len() - 1 ==> !starts_with(#[trigger] parts[k], "gen"@),
    ensures
        first_generation(parts, i) is None,
    decreases parts.len() - i,
{
    if i + 1 < parts.len() {
        no_generation_from(parts, i + 1);
    }
}

/// The sequence number of a file is the number in its name, with zeros before it or without, and
/// with the ordinal of a part behind it or without.
pub proof fn sequence_is_read_from_the_name(
    path: Seq<char>,
    n: u64,
    width: nat,
    ordinal: Option<nat>,
)
    requires
        last_segment(path) == padded_text(n as nat, width) + (match ordinal {
            Some(o) => seq!['-'] + decimal_text(o),
            None => Seq::empty(),
        }) + seq!['.', 'p', 'a', 'r', 'q', 'u', 'e', 't'],
    ensures
        file_sequence(path) == Some(n),
{
    reveal_strlit(".parquet");
    let suffix = seq!['.', 'p', 'a', 'r', 'q', 'u', 'e', 't'];
    assert(".parquet"@ =~= suffix);
    let digits = padded_text(n as nat, width);
    padded_text_denotes(n as nat, width);
    let middle = match ordinal {
        Some(o) => seq!['-'] + decimal_text(o),
        None => Seq::<char>::empty(),
    };
    let name = last_segment(path);
    let stem = digits + middle;
    assert(name.take(name.len() - 8) =~= stem);
    assert(name.skip(name.len() - 8) =~= suffix);
    assert(!digits.contains('-')) by {
        if digits.contains('-') {
            let i = choose|i: int| 0 <= i < digits.len() && digits[i] == '-';
            assert(is_digit(digits[i]));
        }
    }
    split_on_absent(digits, '-');
    if let Some(o) = ordinal {
        let tail = decimal_text(o);
        decimal_text_denotes(o);
        assert(!tail.contains('-')) by {
            if tail.contains('-') {
                let i = choose|i: int| 0 <= i < tail.len() && tail[i] == '-';
                assert(is_digit(tail[i]));
            }
        }
        assert(stem =~= digits + seq!['-'] + tail);
        split_on_join(digits, tail, '-');
        assert(split_on(stem, '-') =~= seq![digits, tail]);
    } else {
        assert(stem =~= digits);
    }
    assert(is_digit(digits[0]));
}

/// The partition of a table is made of the numbers of database and table.
pub proof fn partition_key_reads_back(db_id: DbId, table_id: TableId)
    ensures
        split_on(partition_key(db_id, table_id), '/') == seq![
            decimal_text(db_id as nat),
            decimal_text(table_id as nat),
        ],
{
    reveal_strlit("/");
    let a = decimal_text(db_id as nat);
    let b = decimal_text(table_id as nat);
    decimal_text_denotes(db_id as nat);
    decimal_text_denotes(table_id as nat);
    assert(!a.contains('/') && !b.contains('/')) by {
        if a.contains('/') {
            let i = choose|i: int| 0 <= i < a.len() && a[i] == '/';
            assert(is_digit(a[i]));
        }
        if b.contains('/') {
            let i = choose|i: int| 0 <= i < b.len() && b[i] == '/';
            assert(is_digit(b[i]));
        }
    }
    assert("/"@ =~= seq!['/']);
    split_on_absent(a, '/');
    split_on_join(a, b, '/');
    assert(split_on(partition_key(db_id, table_id), '/') =~= seq![a, b]);
}

/// A file without a number in its name is never ordered above one of its generation that has one,
/// and a higher number is never ordered below a lower one, however large it is.
pub proof fn order_follows_the_sequence(a: Seq<char>, b: Seq<char>)
    requires
        generation_of(a) == generation_of(b),
        match (file_sequence(a), file_sequence(b)) {
            (Some(x), Some(y)) => x <= y,
            (None, _) => true,
            _ => false,
        },
    ensures
        chunk_order_of(a) <= chunk_order_of(b),
{
}

/// The chunk order of a file lies in the band of its generation: the first has the topmost of five
/// bands, and the fifth the lowest. A number below the first or above the fifth counts as that.
pub proof fn order_lies_in_its_band(path: Seq<char>, k: int)
    requires
        match generation_of(path) {
            None => k == 1,
            Some(n) => (1 <= n <= 5 && k == n) || (n < 1 && k == 1) || (n > 5 && k == 5),
        },
    ensures
        (5 - k) * 1_099_511_627_776 <= chunk_order_of(path) < (6 - k) * 1_099_511_627_776,
{
}

} // verus!

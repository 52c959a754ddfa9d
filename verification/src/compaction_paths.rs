//! The paths of compacted files, and of the claims on jobs.

use vstd::prelude::*;

use crate::chunk::{first_generation_decides, generation_of, names_generation};
use crate::compaction::Job;
use crate::object_path::{
    all_plain, decimal_is_plain, plain_char, plain_concat, plain_path, plain_path_join,
    plain_segment, plain_segment_path, plain_word,
};
use crate::text::{
    all_digits, decimal_text, decimal_text_denotes, is_digit, segments, split_on_absent,
    split_on_concat, split_on_join,
};

verus! {

/// The date and time segments of a path: what the format `%Y-%m-%d/%H-%M` makes of a
/// moment in UTC, given in nanoseconds since the epoch.
pub uninterp spec fn date_segments(chunk_time: i64) -> Seq<char>;

/// The form of the date and time segments: `YYYY-MM-DD/HH-MM`.
pub open spec fn is_date_text(s: Seq<char>) -> bool {
    &&& s.len() == 16
    &&& s[4] == '-' && s[7] == '-' && s[10] == '/' && s[13] == '-'
    &&& forall|i: int|
        0 <= i < 16 && i != 4 && i != 7 && i != 10 && i != 13 ==> is_digit(#[trigger] s[i])
}

/// `chrono::DateTime::from_timestamp_nanos` and `format` with `%Y-%m-%d/%H-%M`. Every
/// `i64` is a moment that chrono can hold, in a year between 1677 and 2262, so the call
/// does not fail, the year has four digits and no sign, and the other numbers are padded to
/// two. The calendar is left to the name `date_segments`.
#[verifier::external_body]
pub(crate) fn format_chunk_time(chunk_time: i64) -> (r: String)
    ensures
        r@ == date_segments(chunk_time),
        is_date_text(r@),
{
    chrono::DateTime::from_timestamp_nanos(chunk_time).format("%Y-%m-%d/%H-%M").to_string()
}

/// The directory of a table in the files of a host.
pub open spec fn table_dir_text(host: Seq<char>, job: Job) -> Seq<char> {
    host + "/dbs/"@ + job.database_name + "-"@ + decimal_text(job.database_id as nat) + "/"@
        + job.table_name + "-"@ + decimal_text(job.table_id as nat)
}

/// The path of a compacted file, with its date and time segments.
pub open spec fn compacted_path_text(
    host: Seq<char>,
    job: Job,
    generation: u8,
    date: Seq<char>,
    compaction_id: Seq<char>,
) -> Seq<char> {
    table_dir_text(host, job) + ("/gen"@ + decimal_text(generation as nat) + ("/"@ + date + "/"@
        + compaction_id + ".parquet"@))
}

/// Every part of the path of a compacted file that comes from outside is plain.
pub open spec fn plain_names(host: Seq<char>, job: Job, compaction_id: Seq<char>) -> bool {
    &&& plain_segment(host)
    &&& all_plain(job.database_name)
    &&& all_plain(job.table_name)
    &&& all_plain(compaction_id)
}

proof fn named_dir_is_plain(name: Seq<char>, id: nat)
    requires
        all_plain(name),
    ensures
        plain_segment(name + "-"@ + decimal_text(id)),
{
    let dir = name + "-"@ + decimal_text(id);
    reveal_strlit("-");
    decimal_is_plain(id);
    plain_concat(name, "-"@);
    plain_concat(name + "-"@, decimal_text(id));
    plain_word(dir, name.len() as int);
}

proof fn table_dir_is_plain(host: Seq<char>, job: Job)
    requires
        plain_segment(host),
        all_plain(job.database_name),
        all_plain(job.table_name),
    ensures
        plain_path(table_dir_text(host, job)),
{
    let db = job.database_name + "-"@ + decimal_text(job.database_id as nat);
    let table = job.table_name + "-"@ + decimal_text(job.table_id as nat);
    let slash = seq!['/'];
    reveal_strlit("/");
    reveal_strlit("/dbs/");
    reveal_strlit("dbs");
    plain_segment_path(host);
    plain_word("dbs"@, 0);
    plain_path_join(host, "dbs"@);
    named_dir_is_plain(job.database_name, job.database_id as nat);
    plain_path_join(host + slash + "dbs"@, db);
    named_dir_is_plain(job.table_name, job.table_id as nat);
    plain_path_join(host + slash + "dbs"@ + slash + db, table);
    assert("/dbs/"@ =~= slash + "dbs"@ + slash);
    assert("/"@ =~= slash);
    assert(table_dir_text(host, job) =~= host + slash + "dbs"@ + slash + db + slash + table);
}

proof fn date_is_plain(date: Seq<char>)
    requires
        is_date_text(date),
    ensures
        plain_segment(date.take(10)),
        plain_segment(date.skip(11)),
        date == date.take(10) + seq!['/'] + date.skip(11),
{
    let day = date.take(10);
    let time = date.skip(11);
    assert forall|i: int| 0 <= i < day.len() implies plain_char(#[trigger] day[i]) by {
        assert(day[i] == date[i]);
    }
    assert forall|i: int| 0 <= i < time.len() implies plain_char(#[trigger] time[i]) by {
        assert(time[i] == date[i + 11]);
    }
    plain_word(day, 4);
    plain_word(time, 2);
    assert(date =~= day + seq!['/'] + time);
}

/// Plain names make a plain path.
pub proof fn compacted_path_is_plain(
    host: Seq<char>,
    job: Job,
    generation: u8,
    date: Seq<char>,
    compaction_id: Seq<char>,
)
    requires
        plain_names(host, job, compaction_id),
        is_date_text(date),
    ensures
        plain_path(compacted_path_text(host, job, generation, date, compaction_id)),
{
    let dir = table_dir_text(host, job);
    let gen = "gen"@ + decimal_text(generation as nat);
    let day = date.take(10);
    let time = date.skip(11);
    let file = compaction_id + ".parquet"@;
    let slash = seq!['/'];
    table_dir_is_plain(host, job);
    assert(plain_segment(gen)) by {
        reveal_strlit("gen");
        decimal_is_plain(generation as nat);
        plain_concat("gen"@, decimal_text(generation as nat));
        plain_word(gen, 0);
    }
    assert(plain_segment(file)) by {
        reveal_strlit(".parquet");
        plain_concat(compaction_id, ".parquet"@);
        plain_word(file, compaction_id.len() as int + 1);
    }
    date_is_plain(date);
    plain_path_join(dir, gen);
    plain_path_join(dir + slash + gen, day);
    plain_path_join(dir + slash + gen + slash + day, time);
    plain_path_join(dir + slash + gen + slash + day + slash + time, file);
    assert("/gen"@ =~= slash + "gen"@) by {
        reveal_strlit("/gen");
        reveal_strlit("gen");
    }
    assert("/"@ =~= slash) by {
        reveal_strlit("/");
    }
    assert(compacted_path_text(host, job, generation, date, compaction_id) =~= dir + slash + gen
        + slash + day + slash + time + slash + file);
}

/// The path of the claim on a table and pair of generations.
pub open spec fn claim_path_text(job: Job) -> Seq<char> {
    "_compactor/claims/"@ + (decimal_text(job.database_id as nat) + ("-"@ + (decimal_text(
        job.table_id as nat,
    ) + ("-gen"@ + (decimal_text(job.source_generation as nat) + ("-to-gen"@ + (decimal_text(
        job.target_generation as nat,
    ) + ".claim"@)))))))
}

/// The path of a claim is plain.
pub proof fn claim_path_is_plain(job: Job)
    ensures
        plain_path(claim_path_text(job)),
{
    reveal_strlit("/");
    reveal_strlit("_compactor");
    reveal_strlit("claims");
    reveal_strlit("_compactor/claims/");
    reveal_strlit("-");
    reveal_strlit("-gen");
    reveal_strlit("-to-gen");
    reveal_strlit(".claim");
    decimal_is_plain(job.database_id as nat);
    decimal_is_plain(job.table_id as nat);
    decimal_is_plain(job.source_generation as nat);
    decimal_is_plain(job.target_generation as nat);
    let d = decimal_text(job.target_generation as nat) + ".claim"@;
    plain_concat(decimal_text(job.target_generation as nat), ".claim"@);
    plain_concat("-to-gen"@, d);
    let c = decimal_text(job.source_generation as nat) + ("-to-gen"@ + d);
    plain_concat(decimal_text(job.source_generation as nat), "-to-gen"@ + d);
    plain_concat("-gen"@, c);
    let b = decimal_text(job.table_id as nat) + ("-gen"@ + c);
    plain_concat(decimal_text(job.table_id as nat), "-gen"@ + c);
    plain_concat("-"@, b);
    let a = decimal_text(job.database_id as nat) + ("-"@ + b);
    plain_concat(decimal_text(job.database_id as nat), "-"@ + b);
    plain_word("_compactor"@, 0);
    plain_segment_path("_compactor"@);
    plain_word("claims"@, 0);
    plain_path_join("_compactor"@, "claims"@);
    plain_word(a, a.len() - 1);
    plain_path_join("_compactor"@ + seq!['/'] + "claims"@, a);
    assert(claim_path_text(job) =~= "_compactor"@ + seq!['/'] + "claims"@ + seq!['/'] + a);
}

/// Two texts that start with a number, each followed by something that is not a digit,
/// are equal only if the numbers are, and what follows.
proof fn numbers_split(a: Seq<char>, x: Seq<char>, b: Seq<char>, y: Seq<char>)
    requires
        a + x == b + y,
        all_digits(a),
        all_digits(b),
        x.len() > 0,
        y.len() > 0,
        !is_digit(x[0]),
        !is_digit(y[0]),
    ensures
        a == b,
        x == y,
{
    let s = a + x;
    let t = b + y;
    if a.len() < b.len() {
        assert(s[a.len() as int] == x[0]);
        assert(t[a.len() as int] == b[a.len() as int]);
        assert(is_digit(b[a.len() as int]));
    } else if b.len() < a.len() {
        assert(t[b.len() as int] == y[0]);
        assert(s[b.len() as int] == a[b.len() as int]);
        assert(is_digit(a[b.len() as int]));
    }
    assert(a =~= s.take(a.len() as int));
    assert(b =~= t.take(b.len() as int));
    assert(x =~= s.skip(a.len() as int));
    assert(y =~= t.skip(b.len() as int));
}

proof fn same_tail(p: Seq<char>, x: Seq<char>, y: Seq<char>)
    requires
        p + x == p + y,
    ensures
        x == y,
{
    assert(x =~= (p + x).skip(p.len() as int));
    assert(y =~= (p + y).skip(p.len() as int));
}

/// Jobs share a claim only if they are for the same table and the same generations.
pub proof fn claims_are_distinct(j1: Job, j2: Job)
    requires
        claim_path_text(j1) == claim_path_text(j2),
    ensures
        j1.database_id == j2.database_id,
        j1.table_id == j2.table_id,
        j1.source_generation == j2.source_generation,
        j1.target_generation == j2.target_generation,
{
    reveal_strlit("-");
    reveal_strlit("-gen");
    reveal_strlit("-to-gen");
    reveal_strlit(".claim");
    decimal_text_denotes(j1.database_id as nat);
    decimal_text_denotes(j2.database_id as nat);
    decimal_text_denotes(j1.table_id as nat);
    decimal_text_denotes(j2.table_id as nat);
    decimal_text_denotes(j1.source_generation as nat);
    decimal_text_denotes(j2.source_generation as nat);
    decimal_text_denotes(j1.target_generation as nat);
    decimal_text_denotes(j2.target_generation as nat);
    let e1 = ".claim"@;
    let d1 = decimal_text(j1.target_generation as nat) + e1;
    let d2 = decimal_text(j2.target_generation as nat) + e1;
    let c1 = decimal_text(j1.source_generation as nat) + ("-to-gen"@ + d1);
    let c2 = decimal_text(j2.source_generation as nat) + ("-to-gen"@ + d2);
    let b1 = decimal_text(j1.table_id as nat) + ("-gen"@ + c1);
    let b2 = decimal_text(j2.table_id as nat) + ("-gen"@ + c2);
    let a1 = decimal_text(j1.database_id as nat) + ("-"@ + b1);
    let a2 = decimal_text(j2.database_id as nat) + ("-"@ + b2);
    same_tail("_compactor/claims/"@, a1, a2);
    numbers_split(
        decimal_text(j1.database_id as nat),
        "-"@ + b1,
        decimal_text(j2.database_id as nat),
        "-"@ + b2,
    );
    same_tail("-"@, b1, b2);
    numbers_split(
        decimal_text(j1.table_id as nat),
        "-gen"@ + c1,
        decimal_text(j2.table_id as nat),
        "-gen"@ + c2,
    );
    same_tail("-gen"@, c1, c2);
    numbers_split(
        decimal_text(j1.source_generation as nat),
        "-to-gen"@ + d1,
        decimal_text(j2.source_generation as nat),
        "-to-gen"@ + d2,
    );
    same_tail("-to-gen"@, d1, d2);
    numbers_split(
        decimal_text(j1.target_generation as nat),
        e1,
        decimal_text(j2.target_generation as nat),
        e1,
    );
}

/// The path of a compacted file names its generation, unless a directory above that of its
/// table, or that one, is named like a generation.
pub proof fn compacted_path_names_generation(
    host: Seq<char>,
    job: Job,
    generation: u8,
    date: Seq<char>,
    compaction_id: Seq<char>,
)
    requires
        forall|i: int|
            1 <= i < segments(table_dir_text(host, job)).len() ==> !names_generation(
                #[trigger] segments(table_dir_text(host, job))[i],
            ),
    ensures
        generation_of(compacted_path_text(host, job, generation, date, compaction_id)) == Some(
            generation,
        ),
{
    let path = compacted_path_text(host, job, generation, date, compaction_id);
    let dir = table_dir_text(host, job);
    let n = decimal_text(generation as nat);
    let gen = "gen"@ + n;
    let rest = date + "/"@ + compaction_id + ".parquet"@;
    let slash = seq!['/'];
    reveal_strlit("/gen");
    reveal_strlit("gen");
    reveal_strlit("/");
    decimal_text_denotes(generation as nat);
    assert(!gen.contains('/')) by {
        if gen.contains('/') {
            let k = choose|k: int| 0 <= k < gen.len() && gen[k] == '/';
            if k >= 3 {
                assert(is_digit(n[k - 3]));
            }
        }
    }
    split_on_absent(gen, '/');
    split_on_concat(gen, rest, '/');
    split_on_concat(dir, gen + slash + rest, '/');
    split_on_concat(Seq::empty(), dir, '/');
    assert(path =~= dir + slash + (gen + slash + rest));
    let parts = segments(path);
    let at = segments(dir).len() as int;
    assert(parts =~= segments(dir) + (seq![gen] + segments(rest)));
    assert(parts[at] == gen);
    assert(gen.take(3) =~= "gen"@);
    assert(gen.skip(3) =~= n);
    assert(is_digit(n[0]));
    assert forall|k: int| 1 <= k < at implies !names_generation(#[trigger] parts[k]) by {
        assert(parts[k] == segments(dir)[k]);
    }
    first_generation_decides(parts, 1, at);
}

/// The directory of a database or of a table, made of a name and an id, is not named like a
/// generation.
proof fn named_dir_is_no_generation(name: Seq<char>, id: nat)
    ensures
        !names_generation(name + "-"@ + decimal_text(id)),
{
    let dir = name + "-"@ + decimal_text(id);
    reveal_strlit("-");
    reveal_strlit("gen");
    if names_generation(dir) {
        let at = name.len() as int;
        assert(dir[at] == '-');
        assert(dir.take(3)[0] == 'g' && dir.take(3)[1] == 'e' && dir.take(3)[2] == 'n');
        let number = dir.skip(3);
        if at < 3 {
            assert(dir.take(3)[at] == '-');
        } else {
            assert(number[at - 3] == '-');
            if number[0] == '+' {
                assert(number.skip(1)[at - 4] == '-');
                assert(is_digit(number.skip(1)[at - 4]));
            } else {
                assert(is_digit(number[at - 3]));
            }
        }
    }
}

/// The path of a compacted file names its generation, whatever its database and its table are
/// called. (A slash in a name would make directories of it.)
pub proof fn compacted_file_is_of_its_generation(
    host: Seq<char>,
    job: Job,
    generation: u8,
    date: Seq<char>,
    compaction_id: Seq<char>,
)
    requires
        !host.contains('/'),
        !job.database_name.contains('/'),
        !job.table_name.contains('/'),
    ensures
        generation_of(compacted_path_text(host, job, generation, date, compaction_id)) == Some(
            generation,
        ),
{
    reveal_strlit("/dbs/");
    reveal_strlit("dbs");
    reveal_strlit("/");
    reveal_strlit("gen");
    let slash = seq!['/'];
    let dir = table_dir_text(host, job);
    let db = job.database_name + "-"@ + decimal_text(job.database_id as nat);
    let table = job.table_name + "-"@ + decimal_text(job.table_id as nat);
    named_dir_has_no_slash(job.database_name, job.database_id as nat);
    named_dir_has_no_slash(job.table_name, job.table_id as nat);
    assert(!"dbs"@.contains('/'));
    split_on_absent(host, '/');
    split_on_join(host, "dbs"@, '/');
    split_on_join(host + slash + "dbs"@, db, '/');
    split_on_join(host + slash + "dbs"@ + slash + db, table, '/');
    assert(dir =~= host + slash + "dbs"@ + slash + db + slash + table);
    let parts = segments(dir);
    assert(parts =~= seq![host, "dbs"@, db, table]);
    assert(!names_generation("dbs"@)) by {
        assert("dbs"@.take(3)[0] == 'd');
    }
    named_dir_is_no_generation(job.database_name, job.database_id as nat);
    named_dir_is_no_generation(job.table_name, job.table_id as nat);
    compacted_path_names_generation(host, job, generation, date, compaction_id);
}

proof fn named_dir_has_no_slash(name: Seq<char>, id: nat)
    requires
        !name.contains('/'),
    ensures
        !(name + "-"@ + decimal_text(id)).contains('/'),
{
    let dir = name + "-"@ + decimal_text(id);
    reveal_strlit("-");
    decimal_text_denotes(id);
    if dir.contains('/') {
        let k = choose|k: int| 0 <= k < dir.len() && dir[k] == '/';
        if k < name.len() {
            assert(name[k] == '/');
        } else if k > name.len() {
            assert(is_digit(decimal_text(id)[k - name.len() - 1]));
        }
    }
}

} // verus!

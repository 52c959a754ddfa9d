//! What queries get of the logs that are not persisted yet, and of the writers that hold them.

use vstd::prelude::*;

use crate::remote_write_buffer::{
    answered_batches, is_fetch_of, is_reachable, standing_in, HotChunksFetch,
    RemoteHotChunksError, RemoteWriterTarget,
};
use crate::text::{
    ends_with, is_digit, last_segment, padded_text, padded_text_denotes, texts, trim_end_once,
};
use crate::wal_reaper::log_sequence;
use crate::wal_tail::{
    after_added, after_persisted, cap_keeps_newest, files_of_writer, is_unpersisted, is_wanted,
    newest, wal_sequence, Tails,
};
use crate::watermarks::mark_of;

verus! {

/// The sequence number of a log file is the number in its name, with zeros before it or without.
pub proof fn log_files_are_named_by_number(path: Seq<char>, n: u64, width: nat)
    requires
        last_segment(path) == padded_text(n as nat, width) + seq!['.', 'w', 'a', 'l'],
    ensures
        wal_sequence(path) == Some(n),
        log_sequence(path) == Some(n),
{
    reveal_strlit(".wal");
    let suffix = seq!['.', 'w', 'a', 'l'];
    assert(".wal"@ =~= suffix);
    let digits = padded_text(n as nat, width);
    padded_text_denotes(n as nat, width);
    let name = last_segment(path);
    assert(path.len() > 0) by {
        if path.len() == 0 {
            assert(last_segment(path).len() == 0);
        }
    }
    assert(name.skip(name.len() - 4) =~= suffix);
    assert(name.take(name.len() - 4) =~= digits);
    assert(!ends_with(digits, suffix)) by {
        if ends_with(digits, suffix) {
            let tail = digits.skip(digits.len() - 4);
            assert(tail[0] == digits[digits.len() - 4]);
            assert(is_digit(digits[digits.len() - 4]));
            assert(suffix[0] == '.');
        }
    }
    trim_end_once(digits, suffix);
    assert(is_digit(digits[0]));
}

/// A log file that is replayed is kept, with its rows, if it is the newest of its writer; the
/// files of a writer never exceed the cap; and no other writer is affected.
pub proof fn newest_log_file_is_kept<S>(
    t: Tails<S>,
    writer: Seq<char>,
    seq: u64,
    state: S,
    cap: nat,
    other: Seq<char>,
)
    requires
        cap >= 1,
        files_of_writer(t.files, writer).dom().finite(),
        forall|k: u64| #[trigger] files_of_writer(t.files, writer).contains_key(k) ==> k <= seq,
    ensures
        ({
            let after = after_added(t, writer, seq, state, cap);
            &&& files_of_writer(after.files, writer).contains_key(seq)
            &&& files_of_writer(after.files, writer)[seq] == state
            &&& files_of_writer(after.files, writer).len() <= cap
            &&& other != writer ==> files_of_writer(after.files, other) == files_of_writer(
                t.files,
                other,
            )
            &&& after.persisted == t.persisted
        }),
{
    let full = files_of_writer(t.files, writer).insert(seq, state);
    let kept = newest(full, cap);
    cap_keeps_newest(full, cap);
    assert(full.len() >= 1) by {
        assert(full.dom().contains(seq));
        if full.len() == 0 {
            assert(full.dom() =~= Set::empty());
        }
    }
    if !kept.contains_key(seq) {
        assert(kept.len() >= 1);
        assert(exists|b: u64| kept.dom().contains(b)) by {
            if forall|b: u64| !kept.dom().contains(b) {
                assert(kept.dom() =~= Set::empty());
            }
        }
        let b = choose|b: u64| kept.dom().contains(b);
        assert(kept.contains_key(b));
        assert(full.contains_key(b));
        assert(full.contains_key(seq));
        assert(seq < b);
        assert(files_of_writer(t.files, writer).contains_key(b));
    }
}

/// As long as there is room, no log file is dropped.
pub proof fn nothing_is_dropped_within_the_cap<S>(
    t: Tails<S>,
    writer: Seq<char>,
    seq: u64,
    state: S,
    cap: nat,
    k: u64,
)
    requires
        files_of_writer(t.files, writer).dom().finite(),
        files_of_writer(t.files, writer).insert(seq, state).len() <= cap,
    ensures
        files_of_writer(after_added(t, writer, seq, state, cap).files, writer).contains_key(k) == (k
            == seq || files_of_writer(t.files, writer).contains_key(k)),
{
}

/// What is persisted is dropped from the tail of its writer, whatever was known before, and from
/// no other tail.
pub proof fn persisted_log_files_are_dropped<S>(
    t: Tails<S>,
    writer: Seq<char>,
    seq: u64,
    other: Seq<char>,
    k: u64,
)
    requires
        is_unpersisted(t),
    ensures
        ({
            let after = after_persisted(t, writer, seq);
            &&& files_of_writer(after.files, writer).contains_key(k) == (files_of_writer(
                t.files,
                writer,
            ).contains_key(k) && k > seq)
            &&& files_of_writer(after.files, writer).contains_key(k) ==> files_of_writer(
                after.files,
                writer,
            )[k] == files_of_writer(t.files, writer)[k]
            &&& other != writer ==> files_of_writer(after.files, other) == files_of_writer(
                t.files,
                other,
            ) && mark_of(after.persisted, other) == mark_of(t.persisted, other)
        }),
{
    if files_of_writer(t.files, writer).contains_key(k) {
        assert(k > mark_of(t.persisted, writer));
    }
}

/// A log file is replayed once: not again while it or a newer one is kept, and not once it is
/// persisted. Until then it is wanted.
pub proof fn log_files_are_wanted_once<S>(
    t: Tails<S>,
    writer: Seq<char>,
    path: Seq<char>,
    n: u64,
    k: u64,
    later: u64,
)
    requires
        wal_sequence(path) == Some(n),
    ensures
        files_of_writer(t.files, writer).contains_key(k) && n <= k ==> !is_wanted(t, writer, path),
        n <= later ==> !is_wanted(after_persisted(t, writer, later), writer, path),
        n <= mark_of(t.persisted, writer) ==> !is_wanted(t, writer, path),
        n > 0 && n > mark_of(t.persisted, writer) && (forall|j: u64| #[trigger]
            files_of_writer(t.files, writer).contains_key(j) ==> j < n) ==> is_wanted(
            t,
            writer,
            path,
        ),
{
}

/// The rows of the writers that answered come one behind the other; one that did not answer adds
/// none.
pub proof fn answers_are_put_together<B>(
    a: Seq<Result<Vec<B>, RemoteHotChunksError>>,
    b: Seq<Result<Vec<B>, RemoteHotChunksError>>,
    one: Result<Vec<B>, RemoteHotChunksError>,
)
    ensures
        answered_batches(a + b) == answered_batches(a) + answered_batches(b),
        one is Ok ==> answered_batches(seq![one]) == one->Ok_0@,
        one is Err ==> answered_batches(seq![one]).len() == 0,
    decreases b.len(),
{
    let single = seq![one];
    assert(single.drop_last() =~= Seq::empty());
    assert(answered_batches(single.drop_last()) =~= Seq::<B>::empty());
    if one is Ok {
        assert(Seq::<B>::empty() + one->Ok_0@ =~= one->Ok_0@);
    }
    if b.len() == 0 {
        assert(a + b =~= a);
        assert(answered_batches(a) + Seq::<B>::empty() =~= answered_batches(a));
    } else {
        let rest = b.drop_last();
        answers_are_put_together(a, rest, one);
        assert((a + b).drop_last() =~= a + rest);
        assert((a + b).last() == b.last());
        if b.last() is Ok {
            let more = b.last()->Ok_0@;
            assert(answered_batches(a) + answered_batches(rest) + more =~= answered_batches(a) + (
            answered_batches(rest) + more));
        }
    }
}

/// The writer with this node id answered: one of the outcomes is its answer.
pub open spec fn has_answered<B>(
    writers: Seq<RemoteWriterTarget>,
    outcomes: Seq<Result<Vec<B>, RemoteHotChunksError>>,
    node_id: Seq<char>,
) -> bool {
    exists|i: int|
        0 <= i < writers.len() && i < outcomes.len() && #[trigger] outcomes[i] is Ok
            && writers[i].node_id is Some && writers[i].node_id->0@ == node_id
}

/// No row is missed and none read twice: where every writer's node id is known, the log tail of a
/// writer is read exactly if it did not answer. Where no writer answered, every tail is read; and
/// where some did, but it cannot be told which, none is.
pub proof fn tails_are_read_for_the_silent<B>(
    fetch: Option<HotChunksFetch<B>>,
    writers: Seq<RemoteWriterTarget>,
    outcomes: Seq<Result<Vec<B>, RemoteHotChunksError>>,
    tails: Seq<Seq<char>>,
    node_id: Seq<char>,
)
    requires
        is_fetch_of(fetch, writers, outcomes),
        tails.contains(node_id),
    ensures
        (forall|i: int| 0 <= i < outcomes.len() ==> (#[trigger] outcomes[i]) is Err)
            ==> standing_in(fetch, tails) == tails,
        (forall|i: int| 0 <= i < writers.len() ==> (#[trigger] writers[i]).node_id is Some) ==> (
        standing_in(fetch, tails).contains(node_id) <==> !has_answered(writers, outcomes, node_id)),
        (exists|i: int| 0 <= i < outcomes.len() && (#[trigger] outcomes[i]) is Ok) && (exists|i: int|
            0 <= i < writers.len() && (#[trigger] writers[i]).node_id is None) ==> standing_in(
            fetch,
            tails,
        ).len() == 0,
{
    if forall|i: int| 0 <= i < writers.len() ==> (#[trigger] writers[i]).node_id is Some {
        crate::remote_write_buffer::tails_stand_in_for_the_silent(
            fetch,
            writers,
            outcomes,
            tails,
            node_id,
        );
        assert(is_reachable(writers, outcomes, node_id) == has_answered(
            writers,
            outcomes,
            node_id,
        )) by {
            if is_reachable(writers, outcomes, node_id) {
                let i = choose|i: int|
                    0 <= i < writers.len() && i < outcomes.len() && (
                    #[trigger] writers[i]).node_id is Some && writers[i].node_id->0@ == node_id
                        && outcomes[i] is Ok;
                assert(outcomes[i] is Ok);
            }
            if has_answered(writers, outcomes, node_id) {
                let i = choose|i: int|
                    0 <= i < writers.len() && i < outcomes.len() && #[trigger] outcomes[i] is Ok
                        && writers[i].node_id is Some && writers[i].node_id->0@ == node_id;
                assert(writers[i].node_id is Some);
            }
        }
    }
}

/// There is something to show exactly if a writer answered: the rows of all that did, and the ids
/// of exactly those of them that are known.
pub proof fn fetch_has_every_answer<B>(
    fetch: Option<HotChunksFetch<B>>,
    writers: Seq<RemoteWriterTarget>,
    outcomes: Seq<Result<Vec<B>, RemoteHotChunksError>>,
    node_id: Seq<char>,
)
    requires
        is_fetch_of(fetch, writers, outcomes),
    ensures
        fetch is Some <==> exists|i: int| 0 <= i < outcomes.len() && (#[trigger] outcomes[i]) is Ok,
        fetch is Some ==> fetch->0.batches@ == answered_batches(outcomes),
        fetch is Some ==> (texts(fetch->0.reachable_node_ids@).contains(node_id) <==> has_answered(
            writers,
            outcomes,
            node_id,
        )),
        fetch is Some ==> (fetch->0.fully_mapped <==> forall|i: int|
            0 <= i < writers.len() ==> (#[trigger] writers[i]).node_id is Some),
{
    if is_reachable(writers, outcomes, node_id) {
        let i = choose|i: int|
            0 <= i < writers.len() && i < outcomes.len() && (#[trigger] writers[i]).node_id is Some
                && writers[i].node_id->0@ == node_id && outcomes[i] is Ok;
        assert(outcomes[i] is Ok);
    }
    if has_answered(writers, outcomes, node_id) {
        let i = choose|i: int|
            0 <= i < writers.len() && i < outcomes.len() && #[trigger] outcomes[i] is Ok
                && writers[i].node_id is Some && writers[i].node_id->0@ == node_id;
        assert(writers[i].node_id is Some);
    }
}

} // verus!

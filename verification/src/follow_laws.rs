//! What a node may rely on as it follows the inventory, and a compactor as it waits for others.

use vstd::prelude::*;

use crate::files::{Manifest, PersistedSnapshot};
use crate::inventory_poller::{after_covered, next_cursor};
use crate::object_path::plain_segment;
use crate::shared_inventory::{
    are_newer_compactions, compaction_location, compaction_manifests, consumer_entry_text,
    marks_with, newer_id, newer_sequence, wal_entry_reads_back, wal_entry_text, wal_location,
    CompactionEntry, ConsumerHeartbeat, ListedObject,
};
use crate::text::{
    ends_with, last_segment, segments, text_lt, text_lt_strict, text_lt_total, text_lt_transitive,
};
use crate::wal_reaper::{lease_writer, log_sequence, manifest_writer};
use crate::wal_tail::{files_of_writer, is_unpersisted, persisting_keeps_unpersisted, Tails};
use crate::watermarks::{mark_of, raised, reaches};

verus! {

/// A consumer is alive as long as its last word is no older than the lifetime.
pub open spec fn is_alive(h: ConsumerHeartbeat, now_ms: i64, ttl_ms: i64) -> bool {
    now_ms - h.updated_at_ms <= ttl_ms || ttl_ms == i64::MAX
}

/// A consumer has come as far as the compaction: its cursor is at the compaction or behind it.
pub open spec fn has_come_to(h: ConsumerHeartbeat, compaction_id: Seq<char>) -> bool {
    h.compaction_cursor is Some && (h.compaction_cursor->0@ == compaction_id || text_lt(
        compaction_id,
        h.compaction_cursor->0@,
    ))
}

/// Files may be deleted exactly if every consumer that is alive has come as far as the compaction
/// that removed them.
pub proof fn deletion_waits_for_live_consumers(
    consumers: Seq<ConsumerHeartbeat>,
    compaction_id: Seq<char>,
    now_ms: i64,
    ttl_ms: i64,
)
    ensures
        (forall|i: int|
            0 <= i < consumers.len() && !(#[trigger] consumers[i]).is_stale(now_ms, ttl_ms)
                ==> consumers[i].has_folded(compaction_id)) <==> (forall|i: int|
            0 <= i < consumers.len() && is_alive(#[trigger] consumers[i], now_ms, ttl_ms)
                ==> has_come_to(consumers[i], compaction_id)),
{
    assert forall|i: int| 0 <= i < consumers.len() implies (#[trigger] consumers[i]).is_stale(
        now_ms,
        ttl_ms,
    ) == !is_alive(consumers[i], now_ms, ttl_ms) && consumers[i].has_folded(compaction_id)
        == has_come_to(consumers[i], compaction_id) by {
        if consumers[i].compaction_cursor is Some {
            let c = consumers[i].compaction_cursor->0@;
            text_lt_total(c, compaction_id);
            if text_lt(compaction_id, c) {
                text_lt_strict(compaction_id, c);
            }
            if c == compaction_id && text_lt(c, compaction_id) {
                text_lt_strict(c, compaction_id);
            }
        }
    }
}

/// The cursor of compactions moves past all that were folded, and never back, where they come in
/// ascending order from the cursor on.
pub proof fn cursor_passes_what_was_folded(
    cursor: Option<Seq<char>>,
    list: Seq<(String, PersistedSnapshot)>,
    i: int,
)
    requires
        0 <= i < list.len(),
        forall|a: int, b: int| 0 <= a < b < list.len() ==> !text_lt(list[b].0@, list[a].0@),
        cursor is Some ==> text_lt(cursor->0, list[0].0@),
    ensures
        next_cursor(cursor, list) is Some,
        !text_lt(next_cursor(cursor, list)->0, list[i].0@),
        cursor is Some ==> text_lt(cursor->0, next_cursor(cursor, list)->0),
        next_cursor(cursor, Seq::empty()) == cursor,
{
    let last = list.last().0@;
    assert(list[list.len() - 1].0@ == last);
    if i == list.len() - 1 {
        if text_lt(last, last) {
            text_lt_strict(last, last);
        }
    }
    if cursor is Some && list.len() > 1 {
        let c = cursor->0;
        let first = list[0].0@;
        text_lt_total(first, last);
        if first != last {
            text_lt_transitive(c, first, last);
        }
    }
}

/// A mark is raised to the higher of the two, and no other mark changes.
pub proof fn raised_mark_is_the_higher(
    marks: Map<Seq<char>, u64>,
    node: Seq<char>,
    mark: u64,
    other: Seq<char>,
)
    ensures
        reaches(raised(marks, node, mark), node, mark),
        marks.contains_key(node) ==> raised(marks, node, mark)[node] >= marks[node],
        raised(marks, node, mark)[node] == mark || (marks.contains_key(node) && raised(
            marks,
            node,
            mark,
        )[node] == marks[node]),
        other != node ==> raised(marks, node, mark).contains_key(other) == marks.contains_key(
            other,
        ) && (marks.contains_key(other) ==> raised(marks, node, mark)[other] == marks[other]),
{
}

/// The marks have reached every manifest that was folded, so that none is loaded again, and what
/// they had reached before.
pub proof fn marks_reach_what_was_folded(
    start: Map<Seq<char>, u64>,
    list: Seq<Manifest>,
    node: Seq<char>,
    sequence: u64,
)
    ensures
        reaches(start, node, sequence) ==> reaches(marks_with(start, list), node, sequence),
        forall|i: int|
            0 <= i < list.len() ==> reaches(
                marks_with(start, list),
                (#[trigger] list[i]).node_id,
                list[i].snapshot_sequence_number,
            ),
    decreases list.len(),
{
    if list.len() > 0 {
        let rest = list.drop_last();
        marks_reach_what_was_folded(start, rest, node, sequence);
        let before = marks_with(start, rest);
        assert forall|i: int| 0 <= i < list.len() implies reaches(
            marks_with(start, list),
            (#[trigger] list[i]).node_id,
            list[i].snapshot_sequence_number,
        ) by {
            if i < rest.len() {
                assert(rest[i] == list[i]);
                assert(reaches(before, rest[i].node_id, rest[i].snapshot_sequence_number));
            }
        }
    }
}

/// One of the manifests covers the log file of the writer.
pub open spec fn is_covered(list: Seq<Manifest>, writer: Seq<char>, k: u64) -> bool {
    exists|i: int|
        0 <= i < list.len() && (#[trigger] list[i]).node_id == writer && k
            <= list[i].wal_file_sequence_number
}

/// The log files that the manifests cover are dropped from the tails, those of their own writers
/// only, and all others are kept as they are.
pub proof fn covered_log_files_are_dropped<S>(
    t: Tails<S>,
    list: Seq<Manifest>,
    writer: Seq<char>,
    k: u64,
)
    requires
        is_unpersisted(t),
    ensures
        is_unpersisted(after_covered(t, list)),
        files_of_writer(after_covered(t, list).files, writer).contains_key(k) == (files_of_writer(
            t.files,
            writer,
        ).contains_key(k) && !is_covered(list, writer, k)),
        files_of_writer(after_covered(t, list).files, writer).contains_key(k) ==> files_of_writer(
            after_covered(t, list).files,
            writer,
        )[k] == files_of_writer(t.files, writer)[k],
    decreases list.len(),
{
    if list.len() > 0 {
        let rest = list.drop_last();
        let last = list.last();
        let before = after_covered(t, rest);
        covered_log_files_are_dropped(t, rest, writer, k);
        persisting_keeps_unpersisted(before, last.node_id, last.wal_file_sequence_number);
        assert(list[list.len() - 1] == last);
        if is_covered(rest, writer, k) {
            let i = choose|i: int|
                0 <= i < rest.len() && (#[trigger] rest[i]).node_id == writer && k
                    <= rest[i].wal_file_sequence_number;
            assert(list[i] == rest[i]);
        }
        if is_covered(list, writer, k) && !is_covered(rest, writer, k) {
            let i = choose|i: int|
                0 <= i < list.len() && (#[trigger] list[i]).node_id == writer && k
                    <= list[i].wal_file_sequence_number;
            if i < rest.len() {
                assert(rest[i] == list[i]);
            }
            assert(last.node_id == writer && k <= last.wal_file_sequence_number);
        }
        if files_of_writer(before.files, writer).contains_key(k) {
            assert(k > mark_of(before.persisted, writer));
        }
    }
}

/// The compactions to fetch are those of the listing whose id is above the mark, all of them and
/// no others.
pub proof fn compactions_above_the_mark_are_chosen(
    listing: Seq<ListedObject>,
    since: Option<Seq<char>>,
    chosen: Seq<CompactionEntry>,
)
    requires
        are_newer_compactions(listing, since, chosen),
    ensures
        forall|i: int|
            0 <= i < listing.len() && is_above((#[trigger] listing[i]).location@, since)
                ==> is_chosen(chosen, listing[i]),
        forall|n: int|
            0 <= n < chosen.len() ==> is_above((#[trigger] chosen[n]).location@, since)
                && compaction_location(chosen[n].location@) == Some(chosen[n].id@) && is_in(
                listing,
                chosen[n],
            ),
    decreases listing.len(),
{
    if listing.len() > 0 {
        let rest = listing.drop_last();
        let object = listing.last();
        let newer = newer_id(object.location@, since) is Some;
        let before = if newer {
            chosen.drop_last()
        } else {
            chosen
        };
        compactions_above_the_mark_are_chosen(rest, since, before);
        assert(listing[listing.len() - 1] == object);
        assert forall|i: int|
            0 <= i < listing.len() && is_above(
                (#[trigger] listing[i]).location@,
                since,
            ) implies is_chosen(chosen, listing[i]) by {
            if i < rest.len() {
                assert(rest[i] == listing[i]);
                let n = choose|n: int|
                    0 <= n < before.len() && (#[trigger] before[n]).location == listing[i].location
                        && before[n].size == listing[i].size;
                assert(chosen[n] == before[n]);
            } else {
                assert(chosen[chosen.len() - 1].location == listing[i].location);
            }
        }
        assert forall|n: int| 0 <= n < chosen.len() implies is_above(
            (#[trigger] chosen[n]).location@,
            since,
        ) && compaction_location(chosen[n].location@) == Some(chosen[n].id@) && is_in(
            listing,
            chosen[n],
        ) by {
            if n < before.len() {
                assert(chosen[n] == before[n]);
                assert(is_in(rest, before[n]));
                let i = choose|i: int|
                    0 <= i < rest.len() && (#[trigger] rest[i]).location == before[n].location
                        && rest[i].size == before[n].size;
                assert(listing[i] == rest[i]);
            } else {
                assert(chosen[n] == chosen.last());
                assert(listing[listing.len() - 1].location == chosen[n].location);
            }
        }
    }
}

/// The compaction at the location is above the mark, if there is one.
pub open spec fn is_above(location: Seq<char>, since: Option<Seq<char>>) -> bool {
    compaction_location(location) is Some && (since is None || text_lt(
        since->0,
        compaction_location(location)->0,
    ))
}

/// The object is among the chosen.
pub open spec fn is_chosen(chosen: Seq<CompactionEntry>, object: ListedObject) -> bool {
    exists|n: int|
        0 <= n < chosen.len() && (#[trigger] chosen[n]).location == object.location
            && chosen[n].size == object.size
}

/// The entry is that of an object in the listing.
pub open spec fn is_in(listing: Seq<ListedObject>, entry: CompactionEntry) -> bool {
    exists|i: int|
        0 <= i < listing.len() && (#[trigger] listing[i]).location == entry.location
            && listing[i].size == entry.size
}

/// The manifest of a writer leads back to the writer, so that a writer that has published is
/// known.
pub proof fn manifest_leads_to_its_writer(node_id: Seq<char>, sequence: u64)
    requires
        plain_segment(node_id),
    ensures
        manifest_writer(wal_entry_text(node_id, sequence)) == Some(node_id),
{
    wal_entry_reads_back(node_id, sequence);
}

/// Consumers do not overwrite each other's word: different nodes have different places for it.
pub proof fn consumers_have_their_own_places(a: Seq<char>, b: Seq<char>)
    requires
        consumer_entry_text(a) == consumer_entry_text(b),
    ensures
        a == b,
{
    let n = consumer_entry_text(a).len();
    let m = consumer_entry_text(Seq::empty()).len();
    assert(consumer_entry_text(a).len() == consumer_entry_text(Seq::empty()).len() + a.len());
    assert(consumer_entry_text(b).len() == consumer_entry_text(Seq::empty()).len() + b.len());
    let start = m - ".json"@.len();
    assert(a =~= consumer_entry_text(a).subrange(start, start + a.len()));
    assert(b =~= consumer_entry_text(b).subrange(start, start + b.len()));
}

/// Compactions that are loaded are folded in the order in which they were loaded.
pub proof fn loaded_compactions_keep_their_order(list: Seq<(String, PersistedSnapshot)>, i: int)
    requires
        0 <= i < list.len(),
    ensures
        compaction_manifests(list).len() == list.len(),
        compaction_manifests(list)[i] == list[i].1@,
{
}

/// A location names a writer only if it is that of a writer's lease, and a log file a number only
/// if it has the name of one.
pub proof fn only_leases_name_writers(location: Seq<char>)
    ensures
        lease_writer(location) is Some ==> last_segment(location) == seq![
            'w', 'r', 'i', 't', 'e', 'r', '-',
        ] + lease_writer(location)->0 + seq!['.', 'l', 'e', 'a', 's', 'e'],
        log_sequence(location) is Some ==> ends_with(
            last_segment(location),
            seq!['.', 'w', 'a', 'l'],
        ),
        manifest_writer(location) is Some ==> segments(location).len() >= 4 && manifest_writer(
            location,
        )->0 == segments(location)[2],
{
    reveal_strlit("writer-");
    reveal_strlit(".lease");
    reveal_strlit(".wal");
    assert("writer-"@ =~= seq!['w', 'r', 'i', 't', 'e', 'r', '-']);
    assert(".lease"@ =~= seq!['.', 'l', 'e', 'a', 's', 'e']);
    assert(".wal"@ =~= seq!['.', 'w', 'a', 'l']);
    if lease_writer(location) is Some {
        let name = last_segment(location);
        let rest = name.skip(7);
        assert(name =~= name.take(7) + rest);
        assert(rest =~= rest.take(rest.len() - 6) + rest.skip(rest.len() - 6));
        assert(name =~= seq!['w', 'r', 'i', 't', 'e', 'r', '-'] + rest.take(rest.len() - 6) + seq![
            '.', 'l', 'e', 'a', 's', 'e',
        ]);
    }
}

/// A manifest is to be loaded exactly if there is no mark of its writer, or the mark is below its
/// sequence number.
pub proof fn manifests_above_the_mark_are_loaded(
    location: Seq<char>,
    marks: Map<Seq<char>, u64>,
    writer: Seq<char>,
    sequence: u64,
)
    requires
        wal_location(location) == Some((writer, sequence)),
    ensures
        !marks.contains_key(writer) ==> newer_sequence(location, marks) == Some(sequence),
        marks.contains_key(writer) && marks[writer] < sequence ==> newer_sequence(location, marks)
            == Some(sequence),
        marks.contains_key(writer) && sequence <= marks[writer] ==> newer_sequence(
            location,
            marks,
        ) is None,
{
}

/// A writer is known by its lease whatever characters its name has in the path, and by any manifest
/// that lies below its directory.
pub proof fn every_writer_is_named(location: Seq<char>, node: Seq<char>)
    ensures
        last_segment(location) == seq!['w', 'r', 'i', 't', 'e', 'r', '-'] + node + seq![
            '.', 'l', 'e', 'a', 's', 'e',
        ] ==> lease_writer(location) == Some(node),
        segments(location).len() >= 4 && segments(location).last().len() > 0 ==> manifest_writer(
            location,
        ) == Some(segments(location)[2]),
{
    reveal_strlit("writer-");
    reveal_strlit(".lease");
    let head = seq!['w', 'r', 'i', 't', 'e', 'r', '-'];
    let tail = seq!['.', 'l', 'e', 'a', 's', 'e'];
    assert("writer-"@ =~= head);
    assert(".lease"@ =~= tail);
    if last_segment(location) == head + node + tail {
        let name = last_segment(location);
        let rest = name.skip(7);
        assert(name.take(7) =~= head);
        assert(rest =~= node + tail);
        assert(rest.skip(rest.len() - 6) =~= tail);
        assert(rest.take(rest.len() - 6) =~= node);
        if location.len() == 0 {
            assert(last_segment(location).len() == 0);
        }
    }
}

} // verus!

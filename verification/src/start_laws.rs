//! What a process does as it starts and stops, in terms of what it is told.

use vstd::prelude::*;
use vstd::utf8::encode_utf8;

use crate::duration::Duration;
use crate::leases::{LeaseConfig, StoreFailure};
use crate::migrate::{dest_text, tally_after, MigrateError, MigrationTally};
use crate::remote_write_buffer::RemoteWriterTarget;
use crate::serve::{
    are_remote_targets, are_tail_writers, are_writers, event_action, event_failure, filled,
    is_process_lease, is_writer_entry, is_writers_failure, known_ids, ServeError, ServerAction,
    ServerEvent, ServerLoop,
};
use crate::startup_probe::{
    after_first_word, answer_text, first_word, has_blank_line, is_health_request, response_text,
};
use crate::text::{
    decimal_text, ends_with, first_at, is_white_space, last_segment, split_on_join, starts_with,
    trim, until,
};
use crate::text_laws::{
    all_space, trimmed_text_stays, until_of_joined, visible_characters_are_no_space,
    words_of_a_line,
};

verus! {

/// The entries that count are those that are not white space alone, all of them, in order.
pub proof fn blank_entries_do_not_count(a: Seq<String>, b: Seq<String>, one: String)
    ensures
        filled(a + b) == filled(a) + filled(b),
        filled(seq![one]) == if all_space(one@) {
            Seq::<String>::empty()
        } else {
            seq![one]
        },
    decreases b.len(),
{
    let single = seq![one];
    assert(single.drop_last() =~= Seq::empty());
    assert(filled(single.drop_last()) =~= Seq::<String>::empty());
    assert(single.last() == one);
    trimmed_text_stays(one@);
    assert(Seq::<String>::empty().push(one) =~= seq![one]);
    if b.len() == 0 {
        assert(a + b =~= a);
        assert(filled(a) + Seq::<String>::empty() =~= filled(a));
    } else {
        let rest = b.drop_last();
        blank_entries_do_not_count(a, rest, one);
        assert((a + b).drop_last() =~= a + rest);
        assert((a + b).last() == b.last());
        assert((filled(a) + filled(rest)).push(b.last()) =~= filled(a) + filled(rest).push(
            b.last(),
        ));
    }
}

/// An entry `node=url` names the node and the address, the address with whatever further `=` it
/// holds, without white space around either.
pub proof fn writer_entry_names_node_and_address(
    entry: Seq<char>,
    node: Seq<char>,
    url: Seq<char>,
    target: RemoteWriterTarget,
)
    requires
        entry == node + seq!['='] + url,
        !node.contains('='),
        is_writer_entry(entry, target),
    ensures
        target.node_id is Some,
        target.node_id->0@ == trim(node),
        target.url@ == trim(url),
        node.len() > 0 && !is_white_space(node[0]) && !is_white_space(node.last())
            ==> target.node_id->0@ == node,
        url.len() > 0 && !is_white_space(url[0]) && !is_white_space(url.last()) ==> target.url@
            == url,
{
    let i = choose|i: int| #[trigger]
        first_at(entry, '=', i) && target.node_id is Some && target.node_id->0@ == trim(
            entry.take(i),
        ) && target.url@ == trim(entry.skip(i + 1));
    let n = node.len() as int;
    assert(entry[n] == '=');
    if i < n {
        assert(entry[i] == node[i]);
    }
    assert(i == n);
    assert(entry.take(n) =~= node);
    assert(entry.skip(n + 1) =~= url);
    trimmed_text_stays(node);
    trimmed_text_stays(url);
}

/// The list of writers is refused exactly for an entry that is not blank and has no `=`; else it
/// names one writer for each entry that is not blank, in order.
pub proof fn writers_are_listed_or_refused(
    entries: Seq<String>,
    targets: Seq<RemoteWriterTarget>,
    e: ServeError,
)
    ensures
        are_writers(entries, targets) ==> targets.len() == filled(entries).len() && forall|i: int|
            0 <= i < targets.len() ==> (#[trigger] filled(entries)[i])@.contains('=')
                && targets[i].node_id is Some && is_writer_entry(filled(entries)[i]@, targets[i]),
        is_writers_failure(entries, e) ==> exists|i: int|
            0 <= i < filled(entries).len() && !(#[trigger] filled(entries)[i])@.contains('=') && e
                == ServeError::InvalidWriter(filled(entries)[i]),
        is_writers_failure(entries, e) ==> !are_writers(entries, targets),
{
    if are_writers(entries, targets) {
        assert forall|i: int| 0 <= i < targets.len() implies (#[trigger] filled(
            entries,
        )[i])@.contains('=') && targets[i].node_id is Some && is_writer_entry(
            filled(entries)[i]@,
            targets[i],
        ) by {
            assert(is_writer_entry(filled(entries)[i]@, targets[i]));
            let k = choose|k: int| #[trigger] first_at(filled(entries)[i]@, '=', k);
            assert(filled(entries)[i]@[k] == '=');
        }
    }
}

/// The node ids of writers come one behind the other, those that are known.
pub proof fn known_ids_are_put_together(
    a: Seq<RemoteWriterTarget>,
    b: Seq<RemoteWriterTarget>,
    one: RemoteWriterTarget,
)
    ensures
        known_ids(a + b) == known_ids(a) + known_ids(b),
        known_ids(seq![one]) == match one.node_id {
            Some(id) => seq![id],
            None => Seq::<String>::empty(),
        },
    decreases b.len(),
{
    let single = seq![one];
    assert(single.drop_last() =~= Seq::empty());
    assert(known_ids(single.drop_last()) =~= Seq::<String>::empty());
    assert(single.last() == one);
    if one.node_id is Some {
        assert(Seq::<String>::empty().push(one.node_id->0) =~= seq![one.node_id->0]);
    }
    if b.len() == 0 {
        assert(a + b =~= a);
        assert(known_ids(a) + Seq::<String>::empty() =~= known_ids(a));
    } else {
        let rest = b.drop_last();
        known_ids_are_put_together(a, rest, one);
        assert((a + b).drop_last() =~= a + rest);
        assert((a + b).last() == b.last());
        if b.last().node_id is Some {
            let id = b.last().node_id->0;
            assert((known_ids(a) + known_ids(rest)).push(id) =~= known_ids(a) + known_ids(
                rest,
            ).push(id));
        }
    }
}

/// A querier follows and asks the writers of the list, where there is one. Without one it follows
/// the nodes and asks the addresses that are listed by themselves, and knows no node id of the
/// latter.
pub proof fn list_of_writers_comes_first(
    targets: Seq<RemoteWriterTarget>,
    node_ids: Seq<String>,
    urls: Seq<String>,
    ids: Seq<String>,
    remote: Seq<RemoteWriterTarget>,
)
    requires
        are_tail_writers(targets, node_ids, ids),
        are_remote_targets(targets, urls, remote),
    ensures
        targets.len() > 0 ==> ids == known_ids(targets) && remote == targets,
        targets.len() == 0 ==> {
            &&& ids.len() == filled(node_ids).len()
            &&& remote.len() == filled(urls).len()
            &&& forall|i: int|
                0 <= i < ids.len() ==> (#[trigger] ids[i])@ == trim(filled(node_ids)[i]@)
            &&& forall|i: int|
                0 <= i < remote.len() ==> (#[trigger] remote[i]).node_id is None && remote[i].url@
                    == trim(filled(urls)[i]@)
        },
{
}

/// The lease of a process bears the name of the node and of the process, so that two processes of
/// one node do not sign alike, and is refreshed three times in its lifetime.
pub proof fn processes_sign_differently(
    a: LeaseConfig,
    b: LeaseConfig,
    path: Seq<char>,
    node_id: Seq<char>,
    p: Seq<char>,
    q: Seq<char>,
    ttl: Duration,
)
    requires
        is_process_lease(a, path, node_id, p, ttl),
        is_process_lease(b, path, node_id, q, ttl),
    ensures
        a.owner@ == b.owner@ ==> p == q,
        starts_with(a.owner@, node_id),
        ends_with(a.owner@, p),
        a.path@ == path,
        a.ttl == ttl,
        3 * a.refresh_interval.nanos <= ttl.nanos < 3 * (a.refresh_interval.nanos + 1),
{
    let head = node_id + "-"@;
    assert(a.owner@ == head + p && b.owner@ == head + q);
    if a.owner@ == b.owner@ {
        assert(p =~= (head + p).skip(head.len() as int));
        assert(q =~= (head + q).skip(head.len() as int));
    }
    assert(a.owner@.take(node_id.len() as int) =~= node_id);
    assert(a.owner@.skip(head.len() as int) =~= p);
}

/// A server stops waiting only while it shuts down, goes on as it is only where the token recovery
/// endpoint has ended by itself, and in all other cases begins to shut down.
pub proof fn server_goes_on_or_shuts_down(
    state: ServerLoop,
    event: ServerEvent,
    shutting_down: bool,
    frontend_stopped: bool,
)
    ensures
        event_action(state, event, shutting_down, frontend_stopped) == ServerAction::Continue <==> (
        event is Recovery && event->Recovery_0 is Ok && state.recovery_active && !shutting_down),
        event_action(state, event, shutting_down, frontend_stopped) == ServerAction::Break <==> (
        shutting_down && (event is Backend || (event is Recovery && event->Recovery_0 is Ok
            && state.recovery_active && frontend_stopped))),
{
}

/// A server does not stop silently: a part that ends although nobody asked for it is a failure,
/// and so is one that ends badly at any time. A request to stop never is one.
pub proof fn unexpected_ends_are_failures(state: ServerLoop, e: String, shutting_down: bool)
    ensures
        event_failure(state, ServerEvent::Signal, shutting_down) is None,
        event_failure(state, ServerEvent::Backend, false) == Some(ServeError::LostBackend),
        event_failure(state, ServerEvent::Frontend(Ok(())), false) == Some(ServeError::LostHttpGrpc),
        event_failure(state, ServerEvent::Frontend(Err(e)), shutting_down) == Some(
            ServeError::Server(e),
        ),
        event_failure(state, ServerEvent::Recovery(Ok(())), shutting_down) is None,
        state.recovery_active ==> event_failure(
            state,
            ServerEvent::Recovery(Err(e)),
            shutting_down,
        ) == Some(ServeError::Server(e)),
{
}

/// A word: not empty, and without white space.
pub open spec fn is_word(w: Seq<char>) -> bool {
    w.len() > 0 && forall|i: int| 0 <= i < w.len() ==> !is_white_space(#[trigger] w[i])
}

/// One of the paths that a health probe asks for.
pub open spec fn is_health_path(path: Seq<char>) -> bool {
    path == "/health"@ || path == "/api/v1/health"@ || path == "/ping"@
}

/// White space within a line.
pub open spec fn is_gap(s: Seq<char>) -> bool {
    all_space(s) && !s.contains('\n')
}

/// A request whose first line has a method and a target, with white space before, between and
/// behind them, is a health probe exactly if its method is `GET` and its target, up to a `?`, is
/// one of the health paths, whatever lines follow.
pub proof fn health_probes_are_told_by_method_and_path(
    before: Seq<char>,
    method: Seq<char>,
    gap: Seq<char>,
    target: Seq<char>,
    rest: Seq<char>,
    lines: Seq<char>,
)
    requires
        is_gap(before),
        is_word(method),
        is_gap(gap),
        gap.len() > 0,
        is_word(target),
        !rest.contains('\n'),
        rest.len() > 0 ==> is_white_space(rest[0]),
    ensures
        ({
            let line = before + (method + (gap + (target + rest)));
            let health = method == "GET"@ && is_health_path(until(target, '?'));
            &&& is_health_request(line + seq!['\n'] + lines) == health
            &&& is_health_request(line) == health
        }),
{
    let body = target + rest;
    let behind = gap + body;
    let words = method + behind;
    let line = before + words;
    visible_characters_are_no_space('\n');
    no_line_end(method);
    no_line_end(target);
    joined_without(target, rest, '\n');
    joined_without(gap, body, '\n');
    joined_without(method, behind, '\n');
    joined_without(before, words, '\n');
    until_of_joined(line, '\n', lines);
    assert(words[0] == method[0]);
    leading_space_is_skipped(before, words);
    assert(behind[0] == gap[0]);
    words_of_a_line(method, behind);
    assert(crate::text::skip_space(words) == words);
    assert(first_word(line) == method);
    assert(after_first_word(line) == behind);
    assert(body[0] == target[0]);
    leading_space_is_skipped(gap, body);
    words_of_a_line(target, rest);
    assert(crate::text::skip_space(body) == body);
    assert(first_word(behind) == target);
}

proof fn no_line_end(w: Seq<char>)
    requires
        is_word(w),
    ensures
        !w.contains('\n'),
{
    visible_characters_are_no_space('\n');
    if w.contains('\n') {
        let i = choose|i: int| 0 <= i < w.len() && w[i] == '\n';
        assert(is_white_space(w[i]));
    }
}

proof fn joined_without(a: Seq<char>, b: Seq<char>, c: char)
    requires
        !a.contains(c),
        !b.contains(c),
    ensures
        !(a + b).contains(c),
{
    if (a + b).contains(c) {
        let i = choose|i: int| 0 <= i < (a + b).len() && (a + b)[i] == c;
        if i < a.len() {
            assert(a[i] == c);
        } else {
            assert(b[i - a.len()] == c);
        }
    }
}

proof fn leading_space_is_skipped(pre: Seq<char>, s: Seq<char>)
    requires
        all_space(pre),
    ensures
        crate::text::skip_space(pre + s) == crate::text::skip_space(s),
    decreases pre.len(),
{
    if pre.len() == 0 {
        assert(pre + s =~= s);
    } else {
        let rest = pre.skip(1);
        assert forall|i: int| 0 <= i < rest.len() implies is_white_space(#[trigger] rest[i]) by {
            assert(rest[i] == pre[i + 1]);
        }
        leading_space_is_skipped(rest, s);
        assert((pre + s)[0] == pre[0]);
        assert((pre + s).skip(1) =~= rest + s);
    }
}

/// The path of a target with a query is what stands before the `?`.
pub proof fn query_does_not_count(path: Seq<char>, query: Seq<char>)
    requires
        !path.contains('?'),
    ensures
        until(path + seq!['?'] + query, '?') == path,
        until(path, '?') == path,
{
    until_of_joined(path, '?', query);
}

/// A response has the status in its first line, says how many bytes its body has, and ends with
/// the blank line and the body.
pub proof fn response_has_its_parts(status: Seq<char>, body: Seq<char>)
    ensures
        starts_with(response_text(status, body), "HTTP/1.1 "@ + status + "\r\n"@),
        ends_with(response_text(status, body), "\r\n\r\n"@ + body),
        exists|a: Seq<char>, b: Seq<char>|
            response_text(status, body) == #[trigger] (a + "\r\ncontent-length: "@ + decimal_text(
                encode_utf8(body).len(),
            ) + "\r\n"@ + b),
{
    let first = "HTTP/1.1 "@;
    let kind = "\r\ncontent-type: text/plain; charset=utf-8\r\ncontent-length: "@;
    let after = "\r\nretry-after: 5\r\nconnection: close\r\n\r\n"@;
    let n = decimal_text(encode_utf8(body).len());
    let r = response_text(status, body);
    reveal_strlit("HTTP/1.1 ");
    reveal_strlit("\r\n");
    reveal_strlit("\r\n\r\n");
    reveal_strlit("\r\ncontent-length: ");
    reveal_strlit("\r\ncontent-type: text/plain; charset=utf-8\r\ncontent-length: ");
    reveal_strlit("\r\nretry-after: 5\r\nconnection: close\r\n\r\n");
    let top = first + status + "\r\n"@;
    assert(kind.take(2) =~= "\r\n"@);
    assert(r.take(top.len() as int) =~= top);
    let end = "\r\n\r\n"@ + body;
    assert(after.skip(after.len() - 4) =~= "\r\n\r\n"@);
    assert(r.skip(r.len() - end.len()) =~= end);
    let cut = kind.len() - 18;
    assert(kind.skip(cut) =~= "\r\ncontent-length: "@);
    let a = first + status + kind.take(cut);
    let b = after.skip(2) + body;
    assert(after.take(2) =~= "\r\n"@);
    assert(r =~= a + "\r\ncontent-length: "@ + n + "\r\n"@ + b);
}

/// While a server starts, a health probe is answered with success and everything else with the
/// service being unavailable.
pub proof fn probes_succeed_and_others_wait(head: Seq<char>)
    ensures
        is_health_request(head) ==> starts_with(answer_text(head), "HTTP/1.1 200 OK\r\n"@)
            && ends_with(answer_text(head), "\r\n\r\nOK"@),
        !is_health_request(head) ==> starts_with(
            answer_text(head),
            "HTTP/1.1 503 Service Unavailable\r\n"@,
        ),
{
    reveal_strlit("HTTP/1.1 ");
    reveal_strlit("\r\n");
    reveal_strlit("\r\n\r\n");
    reveal_strlit("OK");
    reveal_strlit("200 OK");
    reveal_strlit("503 Service Unavailable");
    reveal_strlit("HTTP/1.1 200 OK\r\n");
    reveal_strlit("\r\n\r\nOK");
    reveal_strlit("HTTP/1.1 503 Service Unavailable\r\n");
    response_has_its_parts("200 OK"@, "OK"@);
    response_has_its_parts(
        "503 Service Unavailable"@,
        "server is starting: catalog load / WAL replay in progress\n"@,
    );
    assert("HTTP/1.1 "@ + "200 OK"@ + "\r\n"@ =~= "HTTP/1.1 200 OK\r\n"@);
    assert("\r\n\r\n"@ + "OK"@ =~= "\r\n\r\nOK"@);
    assert("HTTP/1.1 "@ + "503 Service Unavailable"@ + "\r\n"@
        =~= "HTTP/1.1 503 Service Unavailable\r\n"@);
}

/// The head of a request is complete once an empty line has been read, wherever it stands.
pub proof fn head_ends_at_an_empty_line(a: Seq<u8>, b: Seq<u8>)
    ensures
        has_blank_line(a + seq![13u8, 10u8, 13u8, 10u8] + b),
        (forall|i: int| 0 <= i < b.len() ==> (#[trigger] b[i]) != 10u8) ==> !has_blank_line(b),
{
    let s = a + seq![13u8, 10u8, 13u8, 10u8] + b;
    let n = a.len() as int;
    assert(s.subrange(n, n + 4) =~= crate::startup_probe::blank_line());
    if (forall|i: int| 0 <= i < b.len() ==> (#[trigger] b[i]) != 10u8) && has_blank_line(b) {
        let i = choose|i: int|
            0 <= i && i + 4 <= b.len() && #[trigger] b.subrange(i, i + 4)
                == crate::startup_probe::blank_line();
        assert(b.subrange(i, i + 4)[1] == b[i + 1]);
    }
}

/// An object keeps its name in the shared catalog, below the directory of catalogs.
pub proof fn migrated_object_keeps_its_name(location: Seq<char>)
    requires
        !last_segment(location).contains('/'),
    ensures
        last_segment(dest_text(location)) == last_segment(location),
        starts_with(dest_text(location), "_catalog/catalogs/"@),
        dest_text(location).len() == "_catalog/catalogs/"@.len() + last_segment(location).len(),
{
    reveal_strlit("_catalog/catalogs/");
    reveal_strlit("_catalog/catalogs");
    let dir = "_catalog/catalogs"@;
    let name = last_segment(location);
    assert(dest_text(location) =~= dir + seq!['/'] + name);
    split_on_join(dir, name, '/');
    assert(dest_text(location).take(18) =~= "_catalog/catalogs/"@);
}

/// A copy that is made is counted as one, an object that is there already as skipped, and any
/// other failure ends the migration with it.
pub proof fn copies_are_counted(tally: MigrationTally, e: String)
    requires
        tally.copied < u64::MAX,
        tally.skipped_existing < u64::MAX,
    ensures
        tally_after(tally, Ok(())) is Ok,
        tally_after(tally, Ok(()))->Ok_0.copied == tally.copied + 1,
        tally_after(tally, Ok(()))->Ok_0.skipped_existing == tally.skipped_existing,
        tally_after(tally, Err(StoreFailure::AlreadyExists)) is Ok,
        tally_after(tally, Err(StoreFailure::AlreadyExists))->Ok_0.copied == tally.copied,
        tally_after(tally, Err(StoreFailure::AlreadyExists))->Ok_0.skipped_existing
            == tally.skipped_existing + 1,
        tally_after(tally, Err(StoreFailure::NotFound)) == Err::<MigrationTally, MigrateError>(
            MigrateError::Copy(StoreFailure::NotFound),
        ),
        tally_after(tally, Err(StoreFailure::Other(e))) == Err::<MigrationTally, MigrateError>(
            MigrateError::Copy(StoreFailure::Other(e)),
        ),
{
}

} // verus!

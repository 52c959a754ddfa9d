//! Adoption of the write-ahead logs of dead writers.
//!
//! A writer that was killed leaves log files that no manifest covers. They are found, and
//! replayed under a lease of the writer's own, `_locks/writer-<node>.lease`: as long as anyone
//! else holds that lease, the log is left alone, and as long as the reaper holds it, anyone
//! else waits.

use vstd::prelude::*;
use vstd::string::*;

use crate::duration::Duration;
use crate::files::PersistedSnapshot;
use crate::lease_laws::{attempt_decides, first_attempt, runs_to, LeaseStore};
use crate::leases::{lease_doc, AcquireStep, LeaseConfig, StoreCall};
use crate::object_path::{
    all_plain, object_path, parts_of, path_parts, plain_concat, plain_path, plain_path_join,
    plain_segment_path, plain_word, stored_path,
};
use crate::text::{
    ends_with, last_segment, parse_unsigned, path_tail, read_unsigned, same_text, starts_with,
    texts, without_prefix, without_suffix,
};

verus! {

/// The writer whose lease is at this location: `writer-<node>.lease`.
pub open spec fn lease_writer(location: Seq<char>) -> Option<Seq<char>> {
    let name = last_segment(location);
    let rest = name.skip("writer-"@.len() as int);
    if location.len() > 0 && starts_with(name, "writer-"@) && ends_with(rest, ".lease"@) {
        Some(rest.take(rest.len() - ".lease"@.len()))
    } else {
        None
    }
}

/// The writer whose manifest is at this location.
pub open spec fn manifest_writer(location: Seq<char>) -> Option<Seq<char>> {
    let parts = path_parts(location);
    if parts.len() >= 4 {
        Some(parts[2])
    } else {
        None
    }
}

fn read_lease_writer(location: &str) -> (r: Option<String>)
    ensures
        match r {
            Some(n) => lease_writer(location@) == Some(n@),
            None => lease_writer(location@) is None,
        },
{
    if location.unicode_len() == 0 {
        return None;
    }
    let name = path_tail(location);
    match without_prefix(name.as_str(), "writer-") {
        Some(rest) => without_suffix(rest.as_str(), ".lease"),
        None => None,
    }
}

fn read_manifest_writer(location: &str) -> (r: Option<String>)
    ensures
        match r {
            Some(n) => manifest_writer(location@) == Some(n@),
            None => manifest_writer(location@) is None,
        },
{
    let parts = parts_of(location);
    if parts.len() >= 4 {
        proof {
            assert(texts(parts@)[2] == parts@[2]@);
        }
        Some(parts[2].clone())
    } else {
        None
    }
}

/// A location in the list names the writer.
pub open spec fn is_named(
    locks: Seq<String>,
    manifests: Seq<String>,
    node: Seq<char>,
) -> bool {
    ||| exists|i: int| 0 <= i < locks.len() && lease_writer((#[trigger] locks[i])@) == Some(node)
    ||| exists|i: int|
        0 <= i < manifests.len() && manifest_writer((#[trigger] manifests[i])@) == Some(node)
}

fn add_name(list: &mut Vec<String>, name: String)
    requires
        texts(old(list)@).no_duplicates(),
    ensures
        texts(final(list)@).no_duplicates(),
        forall|n: Seq<char>| #[trigger]
            texts(final(list)@).contains(n) <==> texts(old(list)@).contains(n) || n == name@,
{
    let ghost before = texts(list@);
    let mut i: usize = 0;
    while i < list.len()
        invariant
            i <= list.len(),
            list@ == old(list)@,
            before == texts(list@),
            before.no_duplicates(),
            forall|j: int| 0 <= j < i ==> (#[trigger] before[j]) != name@,
        decreases list.len() - i,
    {
        if list[i] == name {
            proof {
                assert(before[i as int] == name@);
            }
            return;
        }
        proof {
            assert(before[i as int] != name@);
        }
        i += 1;
    }
    list.push(name);
    proof {
        assert(texts(list@) =~= before.push(name@));
        assert forall|n: Seq<char>| #[trigger] texts(list@).contains(n) <==> before.contains(n) || n
            == name@ by {
            if before.contains(n) {
                let k = choose|k: int| 0 <= k < before.len() && before[k] == n;
                assert(texts(list@)[k] == n);
            }
            if n == name@ {
                assert(texts(list@)[before.len() as int] == n);
            }
        }
    }
}

/// The writers that the cluster has known: those with a lease, and those that have
/// published a manifest. Each is listed once.
pub fn discover_node_prefixes(locks: &Vec<String>, manifests: &Vec<String>) -> (r: Vec<String>)
    ensures
        forall|n: Seq<char>|
            texts(r@).contains(n) <==> #[trigger] is_named(locks@, manifests@, n),
        texts(r@).no_duplicates(),
{
    let mut out: Vec<String> = Vec::new();
    let mut i: usize = 0;
    proof {
        assert(texts(out@) =~= Seq::empty());
    }
    while i < locks.len()
        invariant
            i <= locks.len(),
            texts(out@).no_duplicates(),
            forall|n: Seq<char>| #[trigger]
                texts(out@).contains(n) <==> exists|k: int|
                    0 <= k < i && lease_writer((#[trigger] locks@[k])@) == Some(n),
        decreases locks.len() - i,
    {
        let ghost before = texts(out@);
        if let Some(node) = read_lease_writer(locks[i].as_str()) {
            add_name(&mut out, node);
        }
        proof {
            assert forall|n: Seq<char>| #[trigger] texts(out@).contains(n) <==> exists|k: int|
                0 <= k < i + 1 && lease_writer((#[trigger] locks@[k])@) == Some(n) by {
                assert(before.contains(n) || !before.contains(n));
                if lease_writer(locks@[i as int]@) == Some(n) {
                    assert(texts(out@).contains(n));
                }
            }
        }
        i += 1;
    }
    let mut j: usize = 0;
    while j < manifests.len()
        invariant
            j <= manifests.len(),
            texts(out@).no_duplicates(),
            forall|n: Seq<char>| #[trigger]
                texts(out@).contains(n) <==> (exists|k: int|
                    0 <= k < locks.len() && lease_writer((#[trigger] locks@[k])@) == Some(n)) || (
                exists|k: int|
                    0 <= k < j && manifest_writer((#[trigger] manifests@[k])@) == Some(n)),
        decreases manifests.len() - j,
    {
        let ghost before = texts(out@);
        if let Some(node) = read_manifest_writer(manifests[j].as_str()) {
            add_name(&mut out, node);
        }
        proof {
            assert forall|n: Seq<char>| #[trigger] texts(out@).contains(n) <==> (exists|k: int|
                0 <= k < locks.len() && lease_writer((#[trigger] locks@[k])@) == Some(n)) || (
            exists|k: int|
                0 <= k < j + 1 && manifest_writer((#[trigger] manifests@[k])@) == Some(n)) by {
                assert(before.contains(n) || !before.contains(n));
                if manifest_writer(manifests@[j as int]@) == Some(n) {
                    assert(texts(out@).contains(n));
                }
            }
        }
        j += 1;
    }
    out
}

/// The sequence number of a log file: its name, up to `.wal`, as a number.
pub open spec fn log_sequence(location: Seq<char>) -> Option<u64> {
    let name = last_segment(location);
    if location.len() > 0 && ends_with(name, ".wal"@) {
        parse_unsigned(name.take(name.len() - ".wal"@.len()), u64::MAX)
    } else {
        None
    }
}

/// The sequence number of a log file.
pub fn parse_wal_seq(location: &str) -> (r: Option<u64>)
    ensures
        r == log_sequence(location@),
{
    if location.unicode_len() == 0 {
        return None;
    }
    let name = path_tail(location);
    match without_suffix(name.as_str(), ".wal") {
        Some(stem) => read_unsigned(stem.as_str(), u64::MAX),
        None => None,
    }
}

/// The newest log file that the manifests of a writer cover, if it has any.
pub fn latest_covered_wal_seq(node_id: &str, snapshots: &Vec<PersistedSnapshot>) -> (r: Option<u64>)
    ensures
        match r {
            Some(covered) => {
                &&& exists|i: int|
                    0 <= i < snapshots.len() && (#[trigger] snapshots@[i]).node_id@ == node_id@
                        && snapshots@[i].wal_file_sequence_number == covered
                &&& forall|i: int|
                    0 <= i < snapshots.len() && (#[trigger] snapshots@[i]).node_id@ == node_id@
                        ==> snapshots@[i].wal_file_sequence_number <= covered
            },
            None => forall|i: int|
                0 <= i < snapshots.len() ==> (#[trigger] snapshots@[i]).node_id@ != node_id@,
        },
{
    let mut newest: Option<u64> = None;
    let mut i: usize = 0;
    while i < snapshots.len()
        invariant
            i <= snapshots.len(),
            match newest {
                Some(covered) => {
                    &&& exists|j: int|
                        0 <= j < i && (#[trigger] snapshots@[j]).node_id@ == node_id@
                            && snapshots@[j].wal_file_sequence_number == covered
                    &&& forall|j: int|
                        0 <= j < i && (#[trigger] snapshots@[j]).node_id@ == node_id@
                            ==> snapshots@[j].wal_file_sequence_number <= covered
                },
                None => forall|j: int|
                    0 <= j < i ==> (#[trigger] snapshots@[j]).node_id@ != node_id@,
            },
        decreases snapshots.len() - i,
    {
        let snapshot = &snapshots[i];
        if same_text(snapshot.node_id.as_str(), node_id) {
            let seq: u64 = snapshot.wal_file_sequence_number;
            let grows: bool = match newest {
                Some(covered) => seq > covered,
                None => true,
            };
            if grows {
                newest = Some(seq);
                proof {
                    assert(snapshots@[i as int].node_id@ == node_id@);
                }
            }
        }
        i += 1;
    }
    newest
}

/// Whether a writer has log files beyond those that its manifests cover.
pub fn has_unsnapshotted_wal(paths: &Vec<String>, covered: Option<u64>) -> (r: bool)
    ensures
        r == exists|i: int|
            0 <= i < paths.len() && log_sequence((#[trigger] paths@[i])@) is Some && log_sequence(
                paths@[i]@,
            )->0 > (match covered {
                Some(c) => c,
                None => 0,
            }),
{
    let mark: u64 = match covered {
        Some(c) => c,
        None => 0,
    };
    let mut i: usize = 0;
    while i < paths.len()
        invariant
            i <= paths.len(),
            mark == (match covered {
                Some(c) => c,
                None => 0,
            }),
            forall|j: int|
                0 <= j < i ==> !(log_sequence((#[trigger] paths@[j])@) is Some && log_sequence(
                    paths@[j]@,
                )->0 > mark),
        decreases paths.len() - i,
    {
        if let Some(seq) = parse_wal_seq(paths[i].as_str()) {
            if seq > mark {
                proof {
                    assert(log_sequence(paths@[i as int]@) is Some);
                }
                return true;
            }
        }
        i += 1;
    }
    false
}

/// The path of the lease of a writer.
pub open spec fn writer_lease_text(node_id: Seq<char>) -> Seq<char> {
    "_locks/writer-"@ + node_id + ".lease"@
}

/// The lease of a writer leads back to the writer, so that a writer whose lease is left
/// behind is found.
pub proof fn writer_lease_is_found(node_id: Seq<char>)
    requires
        all_plain(node_id),
    ensures
        plain_path(writer_lease_text(node_id)),
        lease_writer(writer_lease_text(node_id)) == Some(node_id),
{
    let name = "writer-"@ + node_id + ".lease"@;
    reveal_strlit("_locks");
    reveal_strlit("_locks/writer-");
    reveal_strlit("writer-");
    reveal_strlit(".lease");
    plain_concat("writer-"@, node_id);
    plain_concat("writer-"@ + node_id, ".lease"@);
    plain_word(name, 0);
    plain_word("_locks"@, 0);
    plain_segment_path("_locks"@);
    plain_path_join("_locks"@, name);
    let path = writer_lease_text(node_id);
    assert(path =~= "_locks"@ + seq!['/'] + name);
    assert(last_segment(path) == name);
    let rest = name.skip(7);
    assert(rest =~= node_id + ".lease"@);
    assert(name.take(7) =~= "writer-"@);
    assert(rest.skip(node_id.len() as int) =~= ".lease"@);
    assert(rest.take(node_id.len() as int) =~= node_id);
}

/// Where the lease of a writer is.
pub fn writer_lease_path(node_id: &str) -> (r: String)
    ensures
        r@ == stored_path(writer_lease_text(node_id@)),
        all_plain(node_id@) ==> r@ == writer_lease_text(node_id@),
{
    let mut raw = "_locks/writer-".to_owned();
    raw.append(node_id);
    raw.append(".lease");
    proof {
        if all_plain(node_id@) {
            writer_lease_is_found(node_id@);
        }
    }
    object_path(raw.as_str())
}

/// What the reaper does about a writer.
#[derive(Debug)]
pub enum ReapStep {
    /// Leave it alone.
    Skip,
    /// Take its lease; if that succeeds, replay its log, then release the lease.
    Adopt(LeaseConfig),
}

/// What the reaper does about a writer: nothing about its own node, and nothing about one
/// whose log is covered. Otherwise it tries to take the writer's own lease, which fails as
/// long as anyone else holds that lease.
pub fn reap_step(
    node_id: &str,
    own_node_id: &str,
    paths: &Vec<String>,
    covered: Option<u64>,
    lease_ttl: Duration,
) -> (r: ReapStep)
    ensures
        ({
            let behind = exists|i: int|
                0 <= i < paths.len() && log_sequence((#[trigger] paths@[i])@) is Some
                    && log_sequence(paths@[i]@)->0 > (match covered {
                    Some(c) => c,
                    None => 0,
                });
            match r {
                ReapStep::Adopt(config) => {
                    &&& node_id@ != own_node_id@
                    &&& behind
                    &&& config.path@ == stored_path(writer_lease_text(node_id@))
                    &&& all_plain(node_id@) ==> config.path@ == writer_lease_text(node_id@)
                    &&& config.owner@ == "reaper-"@ + own_node_id@
                    &&& config.ttl == lease_ttl
                    &&& config.refresh_interval.nanos == lease_ttl.nanos as int / 3
                },
                ReapStep::Skip => node_id@ == own_node_id@ || !behind,
            }
        }),
{
    if same_text(node_id, own_node_id) {
        return ReapStep::Skip;
    }
    if !has_unsnapshotted_wal(paths, covered) {
        return ReapStep::Skip;
    }
    let mut owner = "reaper-".to_owned();
    owner.append(own_node_id);
    ReapStep::Adopt(LeaseConfig::new(writer_lease_path(node_id), owner, lease_ttl))
}

/// A writer that holds its own lease is left alone: the attempt of the reaper is refused, and
/// the lease stays as it is. In the same way a writer that comes back and tries to acquire its
/// own lease waits for a reaper that holds it.
pub proof fn live_holder_is_left_alone(
    config: LeaseConfig,
    now: i64,
    s: LeaseStore,
    end: AcquireStep,
    t: LeaseStore,
    calls: nat,
)
    requires
        s.current is Some,
        s.current->0.doc.expires_at_unix_ms > now,
        s.current->0.doc.owner@ != config.owner@,
        runs_to(
            first_attempt(lease_doc(config, now), now),
            config.owner@,
            StoreCall::Create(lease_doc(config, now)),
            s,
            end,
            t,
            calls,
        ),
    ensures
        end == AcquireStep::Refused,
        t == s,
{
    attempt_decides(lease_doc(config, now), now, config.owner@, s, end, t, calls);
}

} // verus!

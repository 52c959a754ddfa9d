//! What a server process runs: the decisions behind the `serve` command.

use std::collections::HashMap;

use vstd::prelude::*;
use vstd::string::*;
use vstd::utf8::encode_utf8;

use crate::compaction::CompactionConfig;
use crate::duration::Duration;
use crate::leases::{LeaseConfig, Outcome};
use crate::object_path::{
    object_path, plain_path, plain_path_join, plain_segment, plain_segment_path, plain_word,
};
use crate::remote_write_buffer::RemoteWriterTarget;
use crate::text::{
    chars_of, decimal, decimal_text, find_char, first_at, has_prefix, parse_unsigned, same_text,
    starts_with, trim, trimmed,
};

verus! {

broadcast use vstd::std_specs::hash::group_hash_axioms;

/// The role of a server process.
#[derive(Debug, Clone, Copy, PartialEq, Eq, Structural)]
pub enum NodeMode {
    /// Ingest, query and compaction in one process.
    All,
    /// Ingest, and queries of its own data.
    Writer,
    /// Compaction only.
    Compactor,
    /// Queries only.
    Querier,
}

impl NodeMode {
    pub fn runs_ingest(self) -> (r: bool)
        ensures
            r == (self == NodeMode::All || self == NodeMode::Writer),
    {
        matches!(self, NodeMode::All | NodeMode::Writer)
    }

    pub fn runs_compaction(self) -> (r: bool)
        ensures
            r == (self == NodeMode::All || self == NodeMode::Compactor),
    {
        matches!(self, NodeMode::All | NodeMode::Compactor)
    }

    pub fn runs_query(self) -> (r: bool)
        ensures
            r == (self != NodeMode::Compactor),
    {
        matches!(self, NodeMode::All | NodeMode::Writer | NodeMode::Querier)
    }
}

/// Why a server does not start, or stops.
#[derive(Debug, PartialEq, Eq)]
pub enum ServeError {
    /// TLS takes both a certificate and a key.
    NoCertOrKeyFile,
    /// The environment variable that names the node is not set.
    NodeIdEnvVarMissing(String),
    /// An entry of the list of writers is not of the form `node-id=url`.
    InvalidWriter(String),
    /// Another process holds the writer lease.
    WriterLeaseHeld,
    /// The writer lease could not be asked for.
    WriterLeaseError,
    /// An admin token does not start with `apiv3_`.
    InvalidToken,
    /// The catalog failed.
    Catalog(String),
    /// The backend stopped before the frontend.
    LostBackend,
    /// The frontend stopped on its own.
    LostHttpGrpc,
    /// The frontend failed.
    Server(String),
}

/// How many log files are held in memory during replay, at least.
pub const MIN_REPLAY_PRELOAD_CONCURRENCY: usize = 10;

/// How many snapshots are loaded when a server starts, at least.
pub const MIN_SNAPSHOTS_TO_LOAD_ON_START: u64 = 100;

/// How many log files are replayed at a time on a machine with this many processors.
pub fn wal_replay_concurrency_limit(cpus: usize) -> (r: usize)
    ensures
        r == if cpus >= MIN_REPLAY_PRELOAD_CONCURRENCY {
            cpus
        } else {
            MIN_REPLAY_PRELOAD_CONCURRENCY
        },
{
    if cpus >= MIN_REPLAY_PRELOAD_CONCURRENCY {
        cpus
    } else {
        MIN_REPLAY_PRELOAD_CONCURRENCY
    }
}

/// `num_cpus::get`: the number of processors that the process can use. It depends on the
/// machine, so nothing is stated of it.
#[verifier::external_body]
fn cpu_count() -> (r: usize) {
    num_cpus::get()
}

/// How many log files are replayed at a time unless configured, as text.
pub fn wal_replay_concurrency_limit_default() -> (r: String)
    ensures
        exists|limit: nat|
            limit >= MIN_REPLAY_PRELOAD_CONCURRENCY && #[trigger] decimal_text(limit) == r@,
{
    let limit: usize = wal_replay_concurrency_limit(cpu_count());
    let r = decimal(limit as u64);
    proof {
        assert(decimal_text(limit as nat) == r@);
    }
    r
}

/// What the standard library says of a text that is no number of at most `max`, the largest
/// `usize`.
pub uninterp spec fn not_a_usize(s: Seq<char>, max: u64) -> Seq<char>;

/// `str::parse::<usize>`: an optional `+`, then one or more decimal digits, denoting a
/// number that fits. The wording of a failure, which depends on the text and on the width of
/// `usize`, is left to the name `not_a_usize`.
#[verifier::external_body]
fn parse_usize(s: &str) -> (r: Result<usize, String>)
    ensures
        match r {
            Ok(n) => parse_unsigned(s@, usize::MAX as u64) == Some(n as u64),
            Err(e) => parse_unsigned(s@, usize::MAX as u64) is None && e@ == not_a_usize(
                s@,
                usize::MAX as u64,
            ),
        },
{
    s.parse::<usize>().map_err(|e| e.to_string())
}

/// The limit on concurrent snapshots that a text gives: a number other than zero.
pub fn parse_snapshot_concurrency_limit(s: &str) -> (r: Result<usize, String>)
    ensures
        match r {
            Ok(n) => n > 0 && parse_unsigned(s@, usize::MAX as u64) == Some(n as u64),
            Err(e) => match parse_unsigned(s@, usize::MAX as u64) {
                Some(n) => n == 0 && e@ == "snapshot concurrency limit must be greater than 0"@,
                None => e@ == not_a_usize(s@, usize::MAX as u64),
            },
        },
{
    match parse_usize(s) {
        Ok(n) => if n > 0 {
            Ok(n)
        } else {
            Err("snapshot concurrency limit must be greater than 0".to_owned())
        },
        Err(e) => Err(e),
    }
}

/// A cluster id is refused, with an explanation.
pub fn fail_cluster_id(_cluster_id: &str) -> (r: Result<String, String>)
    ensures
        r is Err,
        r->Err_0@
            == "You've incorrectly specified a cluster-id for InfluxDB 3 Core OSS.\n\nCluster-id is an InfluxDB 3 Enterprise parameter. \nDid you install Core in an upgrade or run Core by mistake?\n\nRemove --cluster-id to run InfluxDB 3 Core OSS."@,
{
    Err(
        "You've incorrectly specified a cluster-id for InfluxDB 3 Core OSS.\n\nCluster-id is an InfluxDB 3 Enterprise parameter. \nDid you install Core in an upgrade or run Core by mistake?\n\nRemove --cluster-id to run InfluxDB 3 Core OSS.".to_owned(),
    )
}

/// The configuration of the allocator: that of the system is used as it is.
pub fn build_malloc_conf() -> (r: String)
    ensures
        r@ == "system"@,
{
    "system".to_owned()
}

/// How a node is named: by its prefix, or by an environment variable that holds it.
#[derive(Debug, PartialEq, Eq)]
pub struct NodeId {
    pub prefix: Option<String>,
    pub from_env_var: Option<String>,
}

impl NodeId {
    /// The environment variable to look up, if the node is named by one.
    pub fn env_var(&self) -> (r: Option<&String>)
        ensures
            match r {
                Some(name) => self.prefix is None && self.from_env_var == Some(*name),
                None => self.prefix is Some || self.from_env_var is None,
            },
    {
        match &self.prefix {
            Some(_) => None,
            None => match &self.from_env_var {
                Some(name) => Some(name),
                None => None,
            },
        }
    }

    /// The name of the node; `value` is that of the environment variable, if it is set.
    pub fn get_node_id(&self, value: Option<String>) -> (r: Result<String, ServeError>)
        requires
            self.prefix is Some || self.from_env_var is Some,
        ensures
            r == match (self.prefix, value) {
                (Some(prefix), _) => Ok::<String, ServeError>(prefix),
                (None, Some(v)) => Ok::<String, ServeError>(v),
                (None, None) => Err::<String, ServeError>(
                    ServeError::NodeIdEnvVarMissing(self.from_env_var->0),
                ),
            },
    {
        match &self.prefix {
            Some(prefix) => Ok(prefix.clone()),
            None => match value {
                Some(v) => Ok(v),
                None => match &self.from_env_var {
                    Some(name) => Err(ServeError::NodeIdEnvVarMissing(name.clone())),
                    None => Err(ServeError::NodeIdEnvVarMissing("missing".to_owned())),
                },
            },
        }
    }
}

/// The lowest version of TLS that a server speaks.
#[derive(Debug, Clone, Copy, PartialEq, Eq, Structural)]
pub enum TlsMinimumVersion {
    Tls1_2,
    Tls1_3,
}

impl Default for TlsMinimumVersion {
    fn default() -> (r: TlsMinimumVersion)
        ensures
            r == TlsMinimumVersion::Tls1_2,
    {
        TlsMinimumVersion::Tls1_2
    }
}

impl TlsMinimumVersion {
    /// Reads `tls-1.2` or `tls-1.3`.
    pub fn from_str(s: &str) -> (r: Result<TlsMinimumVersion, String>)
        ensures
            match r {
                Ok(TlsMinimumVersion::Tls1_2) => s@ == "tls-1.2"@,
                Ok(TlsMinimumVersion::Tls1_3) => s@ == "tls-1.3"@,
                Err(e) => s@ != "tls-1.2"@ && s@ != "tls-1.3"@ && e@
                    == "Valid minimum version strings are tls-1.2 and tls-1.3"@,
            },
    {
        if same_text(s, "tls-1.2") {
            Ok(TlsMinimumVersion::Tls1_2)
        } else if same_text(s, "tls-1.3") {
            Ok(TlsMinimumVersion::Tls1_3)
        } else {
            Err("Valid minimum version strings are tls-1.2 and tls-1.3".to_owned())
        }
    }

    /// Whether a server with this minimum still speaks version 1.2. It always speaks 1.3.
    pub fn allows_1_2(self) -> (r: bool)
        ensures
            r == (self == TlsMinimumVersion::Tls1_2),
    {
        matches!(self, TlsMinimumVersion::Tls1_2)
    }
}

/// How the catalog took the setting of a generation's duration.
#[derive(Debug, PartialEq, Eq)]
pub enum DurationReply {
    /// It is set now.
    Stored,
    /// It was set before, to the same.
    AlreadyExists,
    /// It was set before, to something else, and stays so.
    CannotChange { existing: Duration },
    Failed(String),
}

/// Takes note of the duration of a generation that holds: the one that was asked for,
/// unless the catalog has another one already.
pub fn set_generation_duration_with_error_handling(
    durations: &mut HashMap<u8, Duration>,
    level: u8,
    duration: Duration,
    reply: DurationReply,
) -> (r: Result<(), ServeError>)
    ensures
        match reply {
            DurationReply::Stored | DurationReply::AlreadyExists => r == Ok::<(), ServeError>(())
                && final(durations)@ == old(durations)@.insert(level, duration),
            DurationReply::CannotChange { existing } => r == Ok::<(), ServeError>(())
                && final(durations)@ == old(durations)@.insert(level, existing),
            DurationReply::Failed(e) => r == Err::<(), ServeError>(ServeError::Catalog(e))
                && final(durations)@ == old(durations)@,
        },
{
    match reply {
        DurationReply::Stored | DurationReply::AlreadyExists => {
            durations.insert(level, duration);
            Ok(())
        },
        DurationReply::CannotChange { existing } => {
            durations.insert(level, existing);
            Ok(())
        },
        DurationReply::Failed(e) => Err(ServeError::Catalog(e)),
    }
}

/// A certificate and a key come together or not at all.
pub fn check_tls_files(has_cert: bool, has_key: bool) -> (r: Result<(), ServeError>)
    ensures
        r == if has_cert == has_key {
            Ok::<(), ServeError>(())
        } else {
            Err::<(), ServeError>(ServeError::NoCertOrKeyFile)
        },
{
    if has_cert == has_key {
        Ok(())
    } else {
        Err(ServeError::NoCertOrKeyFile)
    }
}

/// How many tables the index cache holds; zero stands for no limit.
pub fn table_index_cache_entries(configured: usize) -> (r: Option<usize>)
    ensures
        r == if configured == 0 {
            None
        } else {
            Some(configured)
        },
{
    if configured == 0 {
        None
    } else {
        Some(configured)
    }
}

/// How many threads queries run on: as configured, else one for each processor, and one
/// at least.
pub fn query_threads(configured: Option<usize>, cpus: usize) -> (r: usize)
    requires
        configured is Some ==> configured->0 > 0,
    ensures
        r == match configured {
            Some(n) => n,
            None => if cpus > 0 {
                cpus
            } else {
                1
            },
        },
        r > 0,
{
    match configured {
        Some(n) => n,
        None => if cpus > 0 {
            cpus
        } else {
            1
        },
    }
}

/// How many snapshots to load when a server starts: as many generations of the first level
/// as the lookback covers, and some at least.
pub fn snapshots_to_load_on_start(lookback_secs: u64, gen1_secs: u64) -> (r: u64)
    requires
        gen1_secs > 0,
    ensures
        ({
            let n = lookback_secs as int / gen1_secs as int;
            r == if n > MIN_SNAPSHOTS_TO_LOAD_ON_START {
                n
            } else {
                MIN_SNAPSHOTS_TO_LOAD_ON_START as int
            }
        }),
{
    let n: u64 = lookback_secs / gen1_secs;
    if n > MIN_SNAPSHOTS_TO_LOAD_ON_START {
        n
    } else {
        MIN_SNAPSHOTS_TO_LOAD_ON_START
    }
}

/// `s` is empty, or white space alone.
pub open spec fn is_blank(s: Seq<char>) -> bool {
    trim(s).len() == 0
}

/// The writer that an entry of the form `node-id=url` names: what stands before and after
/// the first `=`, without the white space around it.
pub open spec fn is_writer_entry(entry: Seq<char>, target: RemoteWriterTarget) -> bool {
    exists|i: int| #[trigger]
        first_at(entry, '=', i) && target.node_id is Some && target.node_id->0@ == trim(
            entry.take(i),
        ) && target.url@ == trim(entry.skip(i + 1))
}

fn read_writer(entry: &str) -> (r: Option<RemoteWriterTarget>)
    ensures
        match r {
            Some(target) => is_writer_entry(entry@, target),
            None => !entry@.contains('='),
        },
{
    let cs = chars_of(entry);
    match find_char(&cs, '=') {
        Some(i) => {
            let n: usize = cs.len();
            let node_id = trimmed(entry.substring_char(0, i));
            let url = trimmed(entry.substring_char(i + 1, n));
            let target = RemoteWriterTarget { node_id: Some(node_id), url };
            proof {
                assert(entry@.take(i as int) =~= entry@.subrange(0, i as int));
                assert(entry@.skip(i + 1) =~= entry@.subrange(i + 1, n as int));
                assert(first_at(entry@, '=', i as int));
            }
            Some(target)
        },
        None => None,
    }
}

/// The entries that are not blank, in order.
pub open spec fn filled(entries: Seq<String>) -> Seq<String>
    decreases entries.len(),
{
    if entries.len() == 0 {
        Seq::empty()
    } else if is_blank(entries.last()@) {
        filled(entries.drop_last())
    } else {
        filled(entries.drop_last()).push(entries.last())
    }
}

fn filled_entries(entries: &Vec<String>) -> (r: Vec<String>)
    ensures
        r@ == filled(entries@),
{
    let mut out: Vec<String> = Vec::new();
    let mut i: usize = 0;
    proof {
        assert(entries@.take(0) =~= Seq::empty());
    }
    while i < entries.len()
        invariant
            i <= entries.len(),
            out@ == filled(entries@.take(i as int)),
        decreases entries.len() - i,
    {
        proof {
            assert(entries@.take(i + 1).drop_last() =~= entries@.take(i as int));
        }
        let text = trimmed(entries[i].as_str());
        if text.as_str().unicode_len() > 0 {
            out.push(entries[i].clone());
        }
        i += 1;
    }
    proof {
        assert(entries@.take(i as int) =~= entries@);
    }
    out
}

/// The writers that a list of entries of the form `node-id=url` names. Blank entries are
/// passed over; the first other entry without `=` is refused.
pub fn parse_writers(entries: &Vec<String>) -> (r: Result<Vec<RemoteWriterTarget>, ServeError>)
    ensures
        match r {
            Ok(targets) => targets.len() == filled(entries@).len() && forall|i: int|
                0 <= i < targets.len() ==> is_writer_entry(
                    filled(entries@)[i]@,
                    #[trigger] targets@[i],
                ),
            Err(e) => exists|i: int|
                0 <= i < filled(entries@).len() && e == ServeError::InvalidWriter(
                    #[trigger] filled(entries@)[i],
                ) && !filled(entries@)[i]@.contains('=') && forall|j: int|
                    0 <= j < i ==> (#[trigger] filled(entries@)[j])@.contains('='),
        },
{
    let list = filled_entries(entries);
    let mut out: Vec<RemoteWriterTarget> = Vec::new();
    let mut i: usize = 0;
    while i < list.len()
        invariant
            i <= list.len(),
            list@ == filled(entries@),
            out.len() == i,
            forall|j: int| 0 <= j < i ==> is_writer_entry(list@[j]@, #[trigger] out@[j]),
            forall|j: int| 0 <= j < i ==> (#[trigger] list@[j])@.contains('='),
        decreases list.len() - i,
    {
        match read_writer(list[i].as_str()) {
            Some(target) => {
                proof {
                    let entry = list@[i as int]@;
                    let k = choose|k: int| #[trigger]
                        first_at(entry, '=', k) && target.node_id is Some && target.node_id->0@
                            == trim(entry.take(k)) && target.url@ == trim(entry.skip(k + 1));
                    assert(entry[k] == '=');
                }
                out.push(target);
            },
            None => {
                proof {
                    assert(filled(entries@)[i as int] == list@[i as int]);
                }
                return Err(ServeError::InvalidWriter(list[i].clone()));
            },
        }
        i += 1;
    }
    Ok(out)
}

/// The entries without the white space around them.
pub open spec fn are_trimmed(entries: Seq<String>, r: Seq<String>) -> bool {
    r.len() == entries.len() && forall|i: int|
        0 <= i < r.len() ==> (#[trigger] r[i])@ == trim(entries[i]@)
}

fn trimmed_entries(entries: &Vec<String>) -> (r: Vec<String>)
    ensures
        are_trimmed(entries@, r@),
{
    let mut out: Vec<String> = Vec::new();
    let mut i: usize = 0;
    while i < entries.len()
        invariant
            i <= entries.len(),
            out.len() == i,
            forall|j: int| 0 <= j < i ==> (#[trigger] out@[j])@ == trim(entries@[j]@),
        decreases entries.len() - i,
    {
        out.push(trimmed(entries[i].as_str()));
        i += 1;
    }
    out
}

/// The node ids of the targets that have one, in order.
pub open spec fn known_ids(targets: Seq<RemoteWriterTarget>) -> Seq<String>
    decreases targets.len(),
{
    if targets.len() == 0 {
        Seq::empty()
    } else {
        match targets.last().node_id {
            Some(id) => known_ids(targets.drop_last()).push(id),
            None => known_ids(targets.drop_last()),
        }
    }
}

/// `ids` are the writers whose log tails a querier keeps: those of the list of writers, or,
/// where that is empty, those listed by node id alone.
pub open spec fn are_tail_writers(
    targets: Seq<RemoteWriterTarget>,
    writer_node_ids: Seq<String>,
    ids: Seq<String>,
) -> bool {
    if targets.len() == 0 {
        are_trimmed(filled(writer_node_ids), ids)
    } else {
        ids == known_ids(targets)
    }
}

/// The writers whose log tails the process keeps; `None` where it keeps none. Only a querier
/// keeps any, and only if it polls them.
pub fn tail_writers(
    mode: NodeMode,
    targets: &Vec<RemoteWriterTarget>,
    writer_node_ids: &Vec<String>,
    poll_interval: Duration,
) -> (r: Option<Vec<String>>)
    ensures
        r is Some ==> mode == NodeMode::Querier && poll_interval.nanos > 0 && r->0.len() > 0
            && are_tail_writers(targets@, writer_node_ids@, r->0@),
        r is None ==> mode != NodeMode::Querier || poll_interval.nanos == 0 || are_tail_writers(
            targets@,
            writer_node_ids@,
            Seq::empty(),
        ),
{
    if !matches!(mode, NodeMode::Querier) || poll_interval.is_zero() {
        return None;
    }
    let ids: Vec<String> = if targets.len() == 0 {
        let list = filled_entries(writer_node_ids);
        trimmed_entries(&list)
    } else {
        let mut out: Vec<String> = Vec::new();
        let mut i: usize = 0;
        proof {
            assert(targets@.take(0) =~= Seq::empty());
        }
        while i < targets.len()
            invariant
                i <= targets.len(),
                out@ == known_ids(targets@.take(i as int)),
            decreases targets.len() - i,
        {
            proof {
                assert(targets@.take(i + 1).drop_last() =~= targets@.take(i as int));
            }
            if let Some(id) = &targets[i].node_id {
                out.push(id.clone());
            }
            i += 1;
        }
        proof {
            assert(targets@.take(i as int) =~= targets@);
        }
        out
    };
    if ids.len() > 0 {
        Some(ids)
    } else {
        proof {
            assert(ids@ =~= Seq::empty());
        }
        None
    }
}

fn copy_target(target: &RemoteWriterTarget) -> (r: RemoteWriterTarget)
    ensures
        r == *target,
{
    RemoteWriterTarget {
        node_id: match &target.node_id {
            Some(id) => Some(id.clone()),
            None => None,
        },
        url: target.url.clone(),
    }
}

/// `remote` are the writers that a querier asks for rows: those of the list of writers, or,
/// where that is empty, those listed by address alone.
pub open spec fn are_remote_targets(
    targets: Seq<RemoteWriterTarget>,
    writer_urls: Seq<String>,
    remote: Seq<RemoteWriterTarget>,
) -> bool {
    if targets.len() == 0 {
        remote.len() == filled(writer_urls).len() && forall|i: int|
            0 <= i < remote.len() ==> (#[trigger] remote[i]).node_id is None && remote[i].url@
                == trim(filled(writer_urls)[i]@)
    } else {
        remote == targets
    }
}

/// The writers that the process asks for rows; `None` where it asks none. Only a querier
/// does.
pub fn remote_targets(
    mode: NodeMode,
    targets: &Vec<RemoteWriterTarget>,
    writer_urls: &Vec<String>,
) -> (r: Option<Vec<RemoteWriterTarget>>)
    ensures
        r is Some ==> mode == NodeMode::Querier && r->0.len() > 0 && are_remote_targets(
            targets@,
            writer_urls@,
            r->0@,
        ),
        r is None ==> mode != NodeMode::Querier || are_remote_targets(
            targets@,
            writer_urls@,
            Seq::empty(),
        ),
{
    if !matches!(mode, NodeMode::Querier) {
        return None;
    }
    let mut out: Vec<RemoteWriterTarget> = Vec::new();
    if targets.len() == 0 {
        let list = filled_entries(writer_urls);
        let mut i: usize = 0;
        while i < list.len()
            invariant
                i <= list.len(),
                out.len() == i,
                forall|j: int|
                    0 <= j < i ==> (#[trigger] out@[j]).node_id is None && out@[j].url@ == trim(
                        list@[j]@,
                    ),
            decreases list.len() - i,
        {
            out.push(RemoteWriterTarget { node_id: None, url: trimmed(list[i].as_str()) });
            i += 1;
        }
    } else {
        let mut i: usize = 0;
        while i < targets.len()
            invariant
                i <= targets.len(),
                out@ == targets@.take(i as int),
            decreases targets.len() - i,
        {
            out.push(copy_target(&targets[i]));
            i += 1;
            proof {
                assert(out@ =~= targets@.take(i as int));
            }
        }
        proof {
            assert(targets@.take(i as int) =~= targets@);
        }
    }
    if out.len() > 0 {
        Some(out)
    } else {
        proof {
            assert(out@ =~= Seq::empty());
        }
        None
    }
}

/// Which requests a server takes.
#[derive(Debug, Clone, Copy, PartialEq, Eq, Structural)]
pub struct EndpointPolicy {
    pub allow_write: bool,
    pub allow_query: bool,
    /// Requests of other nodes for rows in memory.
    pub allow_internal_rpc: bool,
}

/// Which requests a server in this mode takes. Only a process that ingests has rows in
/// memory that others could ask for.
pub fn endpoint_policy(mode: NodeMode) -> (r: EndpointPolicy)
    ensures
        r.allow_write == (mode == NodeMode::All || mode == NodeMode::Writer),
        r.allow_query == (mode != NodeMode::Compactor),
        r.allow_internal_rpc == (mode == NodeMode::All || mode == NodeMode::Writer),
{
    EndpointPolicy {
        allow_write: mode.runs_ingest(),
        allow_query: mode.runs_query(),
        allow_internal_rpc: matches!(mode, NodeMode::All | NodeMode::Writer),
    }
}

/// The settings that decide what a process runs.
#[derive(Debug)]
pub struct ServeSettings {
    pub mode: NodeMode,
    pub has_cert: bool,
    pub has_key: bool,
    pub shared_catalog: Option<bool>,
    pub writer_lease_ttl: Duration,
    pub compactor_lease_ttl: Duration,
    pub ref_validation_interval: Duration,
    pub inventory_poll_interval: Duration,
    pub wal_tail_poll_interval: Duration,
    pub writers: Vec<String>,
    pub writer_node_ids: Vec<String>,
    pub writer_urls: Vec<String>,
    pub enable_compaction: bool,
    pub compaction_interval: Duration,
    pub max_compaction_files: usize,
    pub min_files_for_compaction: usize,
    pub compaction_delete_grace: Duration,
}

/// What a process runs.
#[derive(Debug)]
pub struct ServicePlan {
    /// The catalog is the one that all nodes share.
    pub shared_catalog: bool,
    /// The node takes part in the shared inventory.
    pub shared_inventory: bool,
    /// The lease to hold before anything is written, if any.
    pub writer_lease: Option<LeaseConfig>,
    /// References are validated.
    pub validate_refs: bool,
    /// The shared inventory is polled.
    pub poll_inventory: bool,
    /// The writers whose log tails are kept, if any.
    pub tail_writers: Option<Vec<String>>,
    /// The writers that are asked for rows, if any.
    pub remote_targets: Option<Vec<RemoteWriterTarget>>,
    /// Compaction runs.
    pub compact: bool,
    /// The lease that compaction is gated on, if any.
    pub compactor_lease: Option<LeaseConfig>,
    pub endpoint_policy: EndpointPolicy,
}

/// The lease is at this path, owned by this process of the node, with this lifetime.
pub open spec fn is_process_lease(
    lease: LeaseConfig,
    path: Seq<char>,
    node_id: Seq<char>,
    process: Seq<char>,
    ttl: Duration,
) -> bool {
    &&& lease.path@ == path
    &&& lease.owner@ == node_id + "-"@ + process
    &&& lease.ttl == ttl
    &&& lease.refresh_interval.nanos == ttl.nanos as int / 3
}

/// The paths of leases are plain.
proof fn lease_path_is_plain(name: Seq<char>)
    requires
        plain_segment(name),
    ensures
        plain_path("_locks"@ + seq!['/'] + name),
{
    reveal_strlit("_locks");
    plain_word("_locks"@, 0);
    plain_segment_path("_locks"@);
    plain_path_join("_locks"@, name);
}

fn process_lease(path: &str, node_id: &str, process: &str, ttl: Duration) -> (r: LeaseConfig)
    requires
        plain_path(path@),
    ensures
        is_process_lease(r, path@, node_id@, process@, ttl),
{
    let mut owner = node_id.to_owned();
    owner.append("-");
    owner.append(process);
    LeaseConfig::new(object_path(path), owner, ttl)
}

/// Decides what a process runs. `process` is unique to the process, so that a node that is
/// restarted is not taken for its predecessor.
pub fn plan_services(settings: &ServeSettings, node_id: &str, process: &str) -> (r: Result<
    ServicePlan,
    ServeError,
>)
    ensures
        match r {
            Ok(plan) => {
                let mode = settings.mode;
                &&& settings.has_cert == settings.has_key
                &&& plan.shared_catalog == match settings.shared_catalog {
                    Some(shared) => shared,
                    None => mode != NodeMode::All,
                }
                &&& plan.shared_inventory == (mode != NodeMode::All)
                &&& match plan.writer_lease {
                    Some(lease) => mode == NodeMode::Writer && settings.writer_lease_ttl.nanos > 0
                        && is_process_lease(
                        lease,
                        "_locks/writer.lease"@,
                        node_id@,
                        process@,
                        settings.writer_lease_ttl,
                    ),
                    None => mode != NodeMode::Writer || settings.writer_lease_ttl.nanos == 0,
                }
                &&& plan.validate_refs == (settings.ref_validation_interval.nanos > 0)
                &&& plan.poll_inventory == (mode != NodeMode::All
                    && settings.inventory_poll_interval.nanos > 0)
                &&& exists|targets: Seq<RemoteWriterTarget>| #[trigger]
                    are_writers(settings.writers@, targets) && (match plan.tail_writers {
                        Some(ids) => mode == NodeMode::Querier
                            && settings.wal_tail_poll_interval.nanos > 0 && ids.len() > 0
                            && are_tail_writers(targets, settings.writer_node_ids@, ids@),
                        None => mode != NodeMode::Querier || settings.wal_tail_poll_interval.nanos
                            == 0 || are_tail_writers(
                            targets,
                            settings.writer_node_ids@,
                            Seq::empty(),
                        ),
                    }) && (match plan.remote_targets {
                        Some(remote) => mode == NodeMode::Querier && remote.len() > 0
                            && are_remote_targets(targets, settings.writer_urls@, remote@),
                        None => mode != NodeMode::Querier || are_remote_targets(
                            targets,
                            settings.writer_urls@,
                            Seq::empty(),
                        ),
                    })
                &&& plan.compact == ((mode == NodeMode::All || mode == NodeMode::Compactor)
                    && settings.enable_compaction)
                &&& match plan.compactor_lease {
                    Some(lease) => plan.compact && mode == NodeMode::Compactor
                        && settings.compactor_lease_ttl.nanos > 0 && is_process_lease(
                        lease,
                        "_locks/compactor.lease"@,
                        node_id@,
                        process@,
                        settings.compactor_lease_ttl,
                    ),
                    None => !plan.compact || mode != NodeMode::Compactor
                        || settings.compactor_lease_ttl.nanos == 0,
                }
                &&& plan.endpoint_policy.allow_write == (mode == NodeMode::All || mode
                    == NodeMode::Writer)
                &&& plan.endpoint_policy.allow_query == (mode != NodeMode::Compactor)
                &&& plan.endpoint_policy.allow_internal_rpc == plan.endpoint_policy.allow_write
            },
            Err(ServeError::NoCertOrKeyFile) => settings.has_cert != settings.has_key,
            Err(e) => settings.has_cert == settings.has_key && is_writers_failure(
                settings.writers@,
                e,
            ),
        },
{
    match check_tls_files(settings.has_cert, settings.has_key) {
        Ok(_) => {},
        Err(e) => {
            return Err(e);
        },
    }
    let targets = match parse_writers(&settings.writers) {
        Ok(targets) => targets,
        Err(e) => {
            return Err(e);
        },
    };
    proof {
        assert(are_writers(settings.writers@, targets@));
    }
    let mode = settings.mode;
    let shared_catalog: bool = match settings.shared_catalog {
        Some(shared) => shared,
        None => !matches!(mode, NodeMode::All),
    };
    proof {
        reveal_strlit("_locks");
        reveal_strlit("writer.lease");
        reveal_strlit("_locks/writer.lease");
        plain_word("writer.lease"@, 0);
        lease_path_is_plain("writer.lease"@);
        assert("_locks/writer.lease"@ =~= "_locks"@ + seq!['/'] + "writer.lease"@);
        reveal_strlit("compactor.lease");
        reveal_strlit("_locks/compactor.lease");
        plain_word("compactor.lease"@, 0);
        lease_path_is_plain("compactor.lease"@);
        assert("_locks/compactor.lease"@ =~= "_locks"@ + seq!['/'] + "compactor.lease"@);
    }
    let writer_lease: Option<LeaseConfig> = if matches!(mode, NodeMode::Writer)
        && !settings.writer_lease_ttl.is_zero() {
        Some(process_lease("_locks/writer.lease", node_id, process, settings.writer_lease_ttl))
    } else {
        None
    };
    let compact: bool = mode.runs_compaction() && settings.enable_compaction;
    let compactor_lease: Option<LeaseConfig> = if compact && matches!(mode, NodeMode::Compactor)
        && !settings.compactor_lease_ttl.is_zero() {
        Some(
            process_lease(
                "_locks/compactor.lease",
                node_id,
                process,
                settings.compactor_lease_ttl,
            ),
        )
    } else {
        None
    };
    let tails = tail_writers(
        mode,
        &targets,
        &settings.writer_node_ids,
        settings.wal_tail_poll_interval,
    );
    let remote = remote_targets(mode, &targets, &settings.writer_urls);
    Ok(
        ServicePlan {
            shared_catalog,
            shared_inventory: !matches!(mode, NodeMode::All),
            writer_lease,
            validate_refs: !settings.ref_validation_interval.is_zero(),
            poll_inventory: !matches!(mode, NodeMode::All)
                && !settings.inventory_poll_interval.is_zero(),
            tail_writers: tails,
            remote_targets: remote,
            compact,
            compactor_lease,
            endpoint_policy: endpoint_policy(mode),
        },
    )
}

/// The targets are those that the entries name.
pub open spec fn are_writers(entries: Seq<String>, targets: Seq<RemoteWriterTarget>) -> bool {
    targets.len() == filled(entries).len() && forall|i: int|
        0 <= i < targets.len() ==> is_writer_entry(filled(entries)[i]@, #[trigger] targets[i])
}

/// The failure names the first entry that is refused.
pub open spec fn is_writers_failure(entries: Seq<String>, e: ServeError) -> bool {
    exists|i: int|
        0 <= i < filled(entries).len() && e == ServeError::InvalidWriter(
            #[trigger] filled(entries)[i],
        ) && !filled(entries)[i]@.contains('=') && forall|j: int|
            0 <= j < i ==> (#[trigger] filled(entries)[j])@.contains('=')
}

/// The configuration of the compaction service of a process.
pub fn compaction_config(settings: &ServeSettings, durations: HashMap<u8, Duration>) -> (r:
    CompactionConfig)
    ensures
        r.enabled,
        r.interval == settings.compaction_interval,
        r.max_files_per_run == settings.max_compaction_files,
        r.min_files_for_compaction == settings.min_files_for_compaction,
        r.generation_durations == durations,
        r.delete_grace == settings.compaction_delete_grace,
        r.checkpoint_every_n_cycles == 10,
        r.claim_ttl.nanos == 1800 * 1_000_000_000,
{
    CompactionConfig {
        enabled: true,
        interval: settings.compaction_interval,
        max_files_per_run: settings.max_compaction_files,
        min_files_for_compaction: settings.min_files_for_compaction,
        generation_durations: durations,
        delete_grace: settings.compaction_delete_grace,
        checkpoint_every_n_cycles: 10,
        claim_ttl: Duration::from_secs(1800),
    }
}

/// What a writer does about its lease while it starts.
#[derive(Debug, PartialEq, Eq)]
pub enum LeaseWait {
    /// It holds the lease, and goes on.
    Acquired,
    /// It tries again after a second.
    Retry,
    /// It gives up.
    GiveUp(ServeError),
}

/// How long a writer waits for its lease: a predecessor that was killed never releases it,
/// so it is waited out, and a little longer. A holder that is alive keeps refreshing it.
pub fn lease_wait_limit(ttl: Duration) -> (r: Duration)
    requires
        ttl.nanos + 5_000_000_000 <= u128::MAX,
    ensures
        r.nanos == ttl.nanos + 5_000_000_000,
{
    Duration { nanos: ttl.nanos + 5_000_000_000 }
}

/// What a writer does about its lease after an attempt, `waited` after it began to try.
pub fn lease_wait_step(outcome: Outcome, waited: Duration, limit: Duration) -> (r: LeaseWait)
    ensures
        r == match outcome {
            Outcome::Held => LeaseWait::Acquired,
            Outcome::NotHeld => if waited.nanos >= limit.nanos {
                LeaseWait::GiveUp(ServeError::WriterLeaseHeld)
            } else {
                LeaseWait::Retry
            },
            Outcome::Error => if waited.nanos >= limit.nanos {
                LeaseWait::GiveUp(ServeError::WriterLeaseError)
            } else {
                LeaseWait::Retry
            },
        },
{
    match outcome {
        Outcome::Held => LeaseWait::Acquired,
        Outcome::NotHeld => if waited.nanos >= limit.nanos {
            LeaseWait::GiveUp(ServeError::WriterLeaseHeld)
        } else {
            LeaseWait::Retry
        },
        Outcome::Error => if waited.nanos >= limit.nanos {
            LeaseWait::GiveUp(ServeError::WriterLeaseError)
        } else {
            LeaseWait::Retry
        },
    }
}

/// What happened to a running server.
#[derive(Debug, PartialEq, Eq)]
pub enum ServerEvent {
    /// A shutdown was asked for from outside.
    Signal,
    /// The background tasks have ended.
    Backend,
    /// The frontend has stopped.
    Frontend(Result<(), String>),
    /// The token recovery endpoint has stopped.
    Recovery(Result<(), String>),
}

/// What a running server does next.
#[derive(Debug, Clone, Copy, PartialEq, Eq, Structural)]
pub enum ServerAction {
    /// It goes on.
    Continue,
    /// It begins to shut down.
    Shutdown,
    /// It stops waiting for events.
    Break,
}

/// A running server: whether its token recovery endpoint is up, and the first failure.
#[derive(Debug, PartialEq, Eq)]
pub struct ServerLoop {
    pub recovery_active: bool,
    pub failure: Option<ServeError>,
}

/// The failure of a server on an event, if it is one. It is one for the backend or the
/// frontend to stop although no shutdown was asked for.
pub open spec fn event_failure(
    state: ServerLoop,
    event: ServerEvent,
    shutting_down: bool,
) -> Option<ServeError> {
    match event {
        ServerEvent::Signal => None,
        ServerEvent::Backend => if shutting_down {
            None
        } else {
            Some(ServeError::LostBackend)
        },
        ServerEvent::Frontend(Ok(_)) => if shutting_down {
            None
        } else {
            Some(ServeError::LostHttpGrpc)
        },
        ServerEvent::Frontend(Err(e)) => Some(ServeError::Server(e)),
        ServerEvent::Recovery(Ok(_)) => None,
        ServerEvent::Recovery(Err(e)) => if state.recovery_active {
            Some(ServeError::Server(e))
        } else {
            None
        },
    }
}

/// What a server does on an event: everything leads to shutdown but the token recovery
/// endpoint's ending by itself, which it does once it has been used. There is nothing to
/// wait for once the backend has ended during shutdown, or the recovery endpoint after the
/// frontend.
pub open spec fn event_action(
    state: ServerLoop,
    event: ServerEvent,
    shutting_down: bool,
    frontend_stopped: bool,
) -> ServerAction {
    match event {
        ServerEvent::Backend => if shutting_down {
            ServerAction::Break
        } else {
            ServerAction::Shutdown
        },
        ServerEvent::Recovery(Ok(_)) => if !state.recovery_active {
            ServerAction::Shutdown
        } else if !shutting_down {
            ServerAction::Continue
        } else if frontend_stopped {
            ServerAction::Break
        } else {
            ServerAction::Shutdown
        },
        _ => ServerAction::Shutdown,
    }
}

/// Keeps the first failure.
fn note_failure(state: &mut ServerLoop, failure: ServeError)
    ensures
        final(state).recovery_active == old(state).recovery_active,
        final(state).failure == match old(state).failure {
            Some(first) => Some(first),
            None => Some(failure),
        },
{
    if state.failure.is_none() {
        state.failure = Some(failure);
    }
}

impl ServerLoop {
    /// A server that has just started.
    pub fn new(recovery_enabled: bool) -> (r: ServerLoop)
        ensures
            r.recovery_active == recovery_enabled,
            r.failure is None,
    {
        ServerLoop { recovery_active: recovery_enabled, failure: None }
    }

    /// Takes an event. The first failure is kept.
    pub fn on_event(
        &mut self,
        event: ServerEvent,
        shutting_down: bool,
        frontend_stopped: bool,
    ) -> (r: ServerAction)
        ensures
            r == event_action(*old(self), event, shutting_down, frontend_stopped),
            final(self).failure == match old(self).failure {
                Some(first) => Some(first),
                None => event_failure(*old(self), event, shutting_down),
            },
            final(self).recovery_active == (old(self).recovery_active && !(event is Recovery
                && event->Recovery_0 is Ok && !shutting_down)),
    {
        match event {
            ServerEvent::Signal => ServerAction::Shutdown,
            ServerEvent::Backend => {
                if shutting_down {
                    return ServerAction::Break;
                }
                note_failure(self, ServeError::LostBackend);
                ServerAction::Shutdown
            },
            ServerEvent::Frontend(result) => {
                match result {
                    Ok(_) => {
                        if !shutting_down {
                            note_failure(self, ServeError::LostHttpGrpc);
                        }
                    },
                    Err(e) => {
                        note_failure(self, ServeError::Server(e));
                    },
                }
                ServerAction::Shutdown
            },
            ServerEvent::Recovery(result) => {
                if !self.recovery_active {
                    return ServerAction::Shutdown;
                }
                match result {
                    Ok(_) => {
                        if !shutting_down {
                            self.recovery_active = false;
                            return ServerAction::Continue;
                        }
                        if frontend_stopped {
                            return ServerAction::Break;
                        }
                    },
                    Err(e) => {
                        note_failure(self, ServeError::Server(e));
                    },
                }
                ServerAction::Shutdown
            },
        }
    }

    /// Takes the result of the frontend that was still running when the server stopped
    /// waiting for events.
    pub fn on_frontend_drained(&mut self, result: Result<(), String>)
        ensures
            final(self).recovery_active == old(self).recovery_active,
            final(self).failure == match (old(self).failure, result) {
                (Some(first), _) => Some(first),
                (None, Ok(_)) => None,
                (None, Err(e)) => Some(ServeError::Server(e)),
            },
    {
        if let Err(e) = result {
            note_failure(self, ServeError::Server(e));
        }
    }
}

/// The SHA-512 digest of some bytes.
pub uninterp spec fn sha512(bytes: Seq<u8>) -> Seq<u8>;

/// `sha2::Sha512::digest`: the 64 bytes of the digest, which depend on the input alone.
#[verifier::external_body]
fn sha512_digest(bytes: &[u8]) -> (r: Vec<u8>)
    ensures
        r@ == sha512(bytes@),
        r@.len() == 64,
{
    <sha2::Sha512 as sha2::Digest>::digest(bytes).to_vec()
}

/// The hash under which an admin token is stored: the digest of its bytes. A token starts
/// with `apiv3_`.
pub fn admin_token_hash(token: &str) -> (r: Result<Vec<u8>, ServeError>)
    ensures
        match r {
            Ok(hash) => starts_with(token@, "apiv3_"@) && hash@ == sha512(encode_utf8(token@)),
            Err(e) => !starts_with(token@, "apiv3_"@) && e == ServeError::InvalidToken,
        },
{
    if !has_prefix(token, "apiv3_") {
        return Err(ServeError::InvalidToken);
    }
    Ok(sha512_digest(token.as_bytes()))
}

/// The permissions of an admin token file, where others than its owner have any.
pub fn insecure_permissions(mode: u32) -> (r: Option<u32>)
    ensures
        r == if mode & 63 != 0 {
            Some(mode & 511)
        } else {
            None
        },
{
    if mode & 63 != 0 {
        Some(mode & 511)
    } else {
        None
    }
}

/// How the catalog took a new token.
#[derive(Debug, PartialEq, Eq)]
pub enum TokenReply {
    Created,
    /// There is a token with this name.
    NameExists,
    Failed(String),
}

/// Whether the token is in place: it was created, or there is one with its name.
pub fn settle_admin_token(reply: TokenReply) -> (r: Result<(), ServeError>)
    ensures
        r == match reply {
            TokenReply::Created | TokenReply::NameExists => Ok::<(), ServeError>(()),
            TokenReply::Failed(e) => Err::<(), ServeError>(ServeError::Catalog(e)),
        },
{
    match reply {
        TokenReply::Created | TokenReply::NameExists => Ok(()),
        TokenReply::Failed(e) => Err(ServeError::Catalog(e)),
    }
}

/// How packages for plugins are installed.
#[derive(Debug, Clone, Copy, PartialEq, Eq, Structural)]
pub enum PackageManager {
    Pip,
    Uv,
    Disabled,
}

/// How packages for plugins are installed: as configured, else with whatever is there, `pip`
/// before `uv`.
pub fn determine_package_manager(
    configured: Option<PackageManager>,
    has_pip: bool,
    has_uv: bool,
) -> (r: PackageManager)
    ensures
        r == match configured {
            Some(manager) => manager,
            None => if has_pip {
                PackageManager::Pip
            } else if has_uv {
                PackageManager::Uv
            } else {
                PackageManager::Disabled
            },
        },
{
    match configured {
        Some(manager) => manager,
        None => if has_pip {
            PackageManager::Pip
        } else if has_uv {
            PackageManager::Uv
        } else {
            PackageManager::Disabled
        },
    }
}

/// A clean shutdown is no failure: on a server that is shutting down, none of its parts
/// ending well counts as one.
pub proof fn clean_shutdown_is_no_failure(state: ServerLoop)
    ensures
        event_failure(state, ServerEvent::Signal, true) is None,
        event_failure(state, ServerEvent::Backend, true) is None,
        event_failure(state, ServerEvent::Frontend(Ok(())), true) is None,
        event_failure(state, ServerEvent::Recovery(Ok(())), true) is None,
{
}

} // verus!

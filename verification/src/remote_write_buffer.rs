//! Rows that are still in the memory of other writers.
//!
//! A querier asks each writer for its rows of a table. A writer that does not answer
//! counts as having none; its log tail can stand in for it.

use vstd::prelude::*;
use vstd::string::*;

use crate::duration::Duration;
use crate::text::{texts, trim_end, trimmed_end};
use crate::watermarks::NodeMarks;

verus! {

/// A writer to ask, with its node id where that is known. Only where it is known can the
/// writer's log tail stand in for it.
#[derive(Debug, PartialEq, Eq)]
pub struct RemoteWriterTarget {
    pub node_id: Option<String>,
    pub url: String,
}

/// Why a writer did not answer.
#[derive(Debug, PartialEq, Eq)]
pub enum RemoteHotChunksError {
    /// The request timed out.
    Timeout,
    /// The request failed.
    Reqwest(String),
    /// The answer was not a success.
    HttpStatus(u16),
    /// The rows could not be decoded.
    Arrow(String),
}

/// What the writers answered.
#[derive(Debug, PartialEq, Eq)]
pub struct HotChunksFetch<B> {
    pub batches: Vec<B>,
    /// The node ids of those that answered, as far as they are known.
    pub reachable_node_ids: Vec<String>,
    /// Every writer's node id is known.
    pub fully_mapped: bool,
}

/// The batches of the writers that answered, in order.
pub open spec fn answered_batches<B>(
    outcomes: Seq<Result<Vec<B>, RemoteHotChunksError>>,
) -> Seq<B>
    decreases outcomes.len(),
{
    if outcomes.len() == 0 {
        Seq::empty()
    } else {
        let before = answered_batches(outcomes.drop_last());
        match outcomes.last() {
            Ok(batches) => before + batches@,
            Err(_) => before,
        }
    }
}

/// The writer with this node id answered.
pub open spec fn is_reachable<B>(
    writers: Seq<RemoteWriterTarget>,
    outcomes: Seq<Result<Vec<B>, RemoteHotChunksError>>,
    node_id: Seq<char>,
) -> bool {
    exists|i: int|
        0 <= i < writers.len() && i < outcomes.len() && (#[trigger] writers[i]).node_id is Some
            && writers[i].node_id->0@ == node_id && outcomes[i] is Ok
}

/// A writer answered.
pub open spec fn any_answered<B>(outcomes: Seq<Result<Vec<B>, RemoteHotChunksError>>) -> bool {
    exists|i: int| 0 <= i < outcomes.len() && (#[trigger] outcomes[i]) is Ok
}

/// `fetch` is what the writers answered, `outcomes[i]` being the outcome of asking writer
/// `i`: there is one where a writer answered.
pub open spec fn is_fetch_of<B>(
    fetch: Option<HotChunksFetch<B>>,
    writers: Seq<RemoteWriterTarget>,
    outcomes: Seq<Result<Vec<B>, RemoteHotChunksError>>,
) -> bool {
    &&& fetch is Some <==> any_answered(outcomes)
    &&& fetch is Some ==> {
        let f = fetch->0;
        &&& f.batches@ == answered_batches(outcomes)
        &&& forall|n: Seq<char>|
            texts(f.reachable_node_ids@).contains(n) <==> #[trigger] is_reachable(
                writers,
                outcomes,
                n,
            )
        &&& texts(f.reachable_node_ids@).no_duplicates()
        &&& f.fully_mapped == forall|i: int|
            0 <= i < writers.len() ==> (#[trigger] writers[i]).node_id is Some
    }
}

fn names(list: &Vec<String>, name: &String) -> (r: bool)
    ensures
        r == texts(list@).contains(name@),
{
    let mut i: usize = 0;
    while i < list.len()
        invariant
            i <= list.len(),
            forall|j: int| 0 <= j < i ==> (#[trigger] texts(list@)[j]) != name@,
        decreases list.len() - i,
    {
        if list[i] == *name {
            proof {
                assert(texts(list@)[i as int] == name@);
            }
            return true;
        }
        proof {
            assert(texts(list@)[i as int] != name@);
        }
        i += 1;
    }
    false
}

/// Whether every writer's node id is known.
fn all_mapped(writers: &Vec<RemoteWriterTarget>) -> (r: bool)
    ensures
        r == forall|i: int| 0 <= i < writers.len() ==> (#[trigger] writers@[i]).node_id is Some,
{
    let mut i: usize = 0;
    while i < writers.len()
        invariant
            i <= writers.len(),
            forall|j: int| 0 <= j < i ==> (#[trigger] writers@[j]).node_id is Some,
        decreases writers.len() - i,
    {
        if writers[i].node_id.is_none() {
            return false;
        }
        i += 1;
    }
    true
}

/// Whether the answer of a writer holds rows: its status has to be a success, and an empty
/// body holds none.
pub fn answer_has_rows(status: u16, body: &Vec<u8>) -> (r: Result<bool, RemoteHotChunksError>)
    ensures
        200 <= status < 300 ==> r == Ok::<bool, RemoteHotChunksError>(body.len() > 0),
        !(200 <= status < 300) ==> r == Err::<bool, RemoteHotChunksError>(
            RemoteHotChunksError::HttpStatus(status),
        ),
{
    match check_status(status) {
        Ok(_) => Ok(body.len() > 0),
        Err(e) => Err(e),
    }
}

/// How a request is reported.
pub fn request_result<B>(outcome: &Result<Vec<B>, RemoteHotChunksError>) -> (r: &'static str)
    ensures
        r@ == match *outcome {
            Ok(_) => "ok"@,
            Err(RemoteHotChunksError::Timeout) => "timeout"@,
            Err(_) => "error"@,
        },
{
    match outcome {
        Ok(_) => "ok",
        Err(RemoteHotChunksError::Timeout) => "timeout",
        Err(_) => "error",
    }
}

/// Where to ask a writer for its rows: its address, without slashes at the end, and the
/// endpoint.
pub fn hot_chunks_endpoint(url: &str) -> (r: String)
    ensures
        r@ == trim_end(url@, "/"@) + "/api/v3/internal/hot_chunks"@,
{
    proof {
        reveal_strlit("/");
    }
    let mut out = trimmed_end(url, "/");
    out.append("/api/v3/internal/hot_chunks");
    out
}

/// An answer is a success if its status is in the two hundreds.
pub fn check_status(status: u16) -> (r: Result<(), RemoteHotChunksError>)
    ensures
        200 <= status < 300 ==> r == Ok::<(), RemoteHotChunksError>(()),
        !(200 <= status < 300) ==> r == Err::<(), RemoteHotChunksError>(
            RemoteHotChunksError::HttpStatus(status),
        ),
{
    if 200 <= status && status < 300 {
        Ok(())
    } else {
        Err(RemoteHotChunksError::HttpStatus(status))
    }
}

/// The writers that a querier asks for rows, and when each address was last warned about,
/// so that a writer that is stuck does not flood the log.
#[derive(Debug)]
pub struct RemoteWriteBuffer {
    writers: Vec<RemoteWriterTarget>,
    request_timeout: Duration,
    last_warn: NodeMarks,
    warn_interval: Duration,
}

impl RemoteWriteBuffer {
    /// The writers to ask.
    pub closed spec fn targets(self) -> Seq<RemoteWriterTarget> {
        self.writers@
    }

    /// How long a request may take.
    pub closed spec fn timeout(self) -> Duration {
        self.request_timeout
    }

    /// When each address was last warned about, in milliseconds.
    pub closed spec fn warned(self) -> Map<Seq<char>, u64> {
        self.last_warn@
    }

    /// The time that passes between two warnings about an address.
    pub closed spec fn warn_every(self) -> Duration {
        self.warn_interval
    }

    /// Asks the writers at these addresses. Their node ids are not known.
    pub fn new(writer_urls: Vec<String>, request_timeout: Duration) -> (r: RemoteWriteBuffer)
        ensures
            r.targets().len() == writer_urls.len(),
            forall|i: int|
                0 <= i < r.targets().len() ==> (#[trigger] r.targets()[i]).node_id is None
                    && r.targets()[i].url == writer_urls@[i],
            r.timeout() == request_timeout,
            r.warned() == Map::<Seq<char>, u64>::empty(),
            r.warn_every().nanos == 60 * 1_000_000_000,
    {
        let ghost urls = writer_urls@;
        let mut out: Vec<RemoteWriterTarget> = Vec::new();
        for url in it: writer_urls
            invariant
                it.seq() == urls,
                out.len() == it.index(),
                forall|i: int|
                    0 <= i < out.len() ==> (#[trigger] out@[i]).node_id is None && out@[i].url
                        == urls[i],
        {
            out.push(RemoteWriterTarget { node_id: None, url });
        }
        RemoteWriteBuffer::with_targets(out, request_timeout)
    }

    /// Asks these writers. An address is warned about at most once a minute.
    pub fn with_targets(writers: Vec<RemoteWriterTarget>, request_timeout: Duration) -> (r:
        RemoteWriteBuffer)
        ensures
            r.targets() == writers@,
            r.timeout() == request_timeout,
            r.warned() == Map::<Seq<char>, u64>::empty(),
            r.warn_every().nanos == 60 * 1_000_000_000,
    {
        RemoteWriteBuffer {
            writers,
            request_timeout,
            last_warn: NodeMarks::new(),
            warn_interval: Duration::from_secs(60),
        }
    }

    /// The writers to ask.
    pub fn writer_targets(&self) -> (r: &Vec<RemoteWriterTarget>)
        ensures
            r@ == self.targets(),
    {
        &self.writers
    }

    /// How long a request may take.
    pub fn request_timeout(&self) -> (r: Duration)
        ensures
            r == self.timeout(),
    {
        self.request_timeout
    }

    /// What the writers answered, `outcomes[i]` being the outcome of asking writer `i`.
    /// `None` where no writer answered, so that the log tail stands in for all of them.
    pub fn fetch_hot_chunks<B>(
        &self,
        outcomes: Vec<Result<Vec<B>, RemoteHotChunksError>>,
    ) -> (r: Option<HotChunksFetch<B>>)
        requires
            self.targets().len() == outcomes.len(),
        ensures
            is_fetch_of(r, self.targets(), outcomes@),
    {
        let writers = &self.writers;
        let ghost all = outcomes@;
        let mut batches: Vec<B> = Vec::new();
        let mut reachable: Vec<String> = Vec::new();
        let mut any = false;
        let mut i: usize = 0;
        proof {
            assert(all.take(0) =~= Seq::empty());
            assert(texts(reachable@) =~= Seq::empty());
        }
        for outcome in it: outcomes
            invariant
                it.seq() == all,
                i == it.index(),
                writers.len() == all.len(),
                batches@ == answered_batches(all.take(it.index())),
                any == any_answered(all.take(it.index())),
                texts(reachable@).no_duplicates(),
                forall|n: Seq<char>|
                    texts(reachable@).contains(n) <==> #[trigger] is_reachable(
                        writers@,
                        all.take(it.index()),
                        n,
                    ),
        {
            let ghost part = all.take(i as int);
            let ghost next = all.take(i + 1);
            let ghost before = texts(reachable@);
            proof {
                assert(next.drop_last() =~= part);
                assert(next.last() == outcome);
                assert(any_answered(next) == (any_answered(part) || outcome is Ok)) by {
                    if any_answered(part) {
                        let k = choose|k: int| 0 <= k < part.len() && (#[trigger] part[k]) is Ok;
                        assert(next[k] is Ok);
                    }
                    if outcome is Ok {
                        assert(next[i as int] is Ok);
                    }
                    if any_answered(next) {
                        let k = choose|k: int| 0 <= k < next.len() && (#[trigger] next[k]) is Ok;
                        if k < i {
                            assert(part[k] is Ok);
                        }
                    }
                }
                assert forall|n: Seq<char>| #[trigger] is_reachable(writers@, next, n) == (is_reachable(
                    writers@,
                    part,
                    n,
                ) || (outcome is Ok && writers@[i as int].node_id is Some
                    && writers@[i as int].node_id->0@ == n)) by {
                    if is_reachable(writers@, part, n) {
                        let k = choose|k: int|
                            0 <= k < writers@.len() && k < part.len() && (#[trigger] writers@[k]).node_id
                                is Some && writers@[k].node_id->0@ == n && part[k] is Ok;
                        assert(next[k] is Ok);
                    }
                    if is_reachable(writers@, next, n) {
                        let k = choose|k: int|
                            0 <= k < writers@.len() && k < next.len() && (#[trigger] writers@[k]).node_id
                                is Some && writers@[k].node_id->0@ == n && next[k] is Ok;
                        if k < i {
                            assert(part[k] is Ok);
                        }
                    }
                }
            }
            match outcome {
                Ok(b) => {
                    any = true;
                    let mut more = b;
                    batches.append(&mut more);
                    if let Some(node_id) = &writers[i].node_id {
                        if !names(&reachable, node_id) {
                            reachable.push(node_id.clone());
                            proof {
                                assert(texts(reachable@) =~= before.push(node_id@));
                            }
                        }
                        proof {
                            assert forall|n: Seq<char>| texts(reachable@).contains(n) == (
                            before.contains(n) || n == node_id@) by {
                                if before.contains(n) {
                                    let k = choose|k: int| 0 <= k < before.len() && before[k] == n;
                                    assert(texts(reachable@)[k] == n);
                                }
                                if n == node_id@ && !before.contains(n) {
                                    assert(texts(reachable@)[before.len() as int] == n);
                                }
                            }
                        }
                    }
                },
                Err(_) => {},
            }
            i += 1;
        }
        proof {
            assert(all.take(all.len() as int) =~= all);
        }
        if any {
            Some(
                HotChunksFetch {
                    batches,
                    reachable_node_ids: reachable,
                    fully_mapped: all_mapped(writers),
                },
            )
        } else {
            None
        }
    }

    /// Whether to warn about an address now, at `now_ms` on a clock that does not go
    /// back. If so, it is noted.
    pub fn warn_once(&mut self, url: &str, now_ms: u64) -> (r: bool)
        ensures
            ({
                let seen = old(self).warned().contains_key(url@);
                let last = old(self).warned()[url@];
                let since = if now_ms >= last {
                    now_ms - last
                } else {
                    0
                };
                r == !(seen && since * 1_000_000 < old(self).warn_every().nanos)
            }),
            final(self).warned() == if r {
                old(self).warned().insert(url@, now_ms)
            } else {
                old(self).warned()
            },
            final(self).targets() == old(self).targets(),
            final(self).timeout() == old(self).timeout(),
            final(self).warn_every() == old(self).warn_every(),
    {
        let log: bool = match self.last_warn.get(url) {
            Some(prev) => {
                let since: u64 = now_ms.saturating_sub(prev);
                since as u128 * 1_000_000 >= self.warn_interval.nanos
            },
            None => true,
        };
        if log {
            self.last_warn.set(url, now_ms);
        }
        log
    }
}

/// The writers, out of `writers`, whose log tails have to stand in for them: all where no
/// writer answered, and those that did not answer where every writer's node id is known.
/// Where it is not, the answers cannot be told apart, and no tail is read beside them.
pub open spec fn standing_in<B>(
    fetch: Option<HotChunksFetch<B>>,
    writers: Seq<Seq<char>>,
) -> Seq<Seq<char>> {
    match fetch {
        None => writers,
        Some(f) => if f.fully_mapped {
            writers.filter(|w: Seq<char>| !texts(f.reachable_node_ids@).contains(w))
        } else {
            Seq::empty()
        },
    }
}

/// The writers whose log tails have to be read beside what the writers answered.
pub fn tails_to_read<B>(fetch: &Option<HotChunksFetch<B>>, writers: &Vec<String>) -> (r: Vec<
    String,
>)
    ensures
        texts(r@) == standing_in(*fetch, texts(writers@)),
{
    let mut out: Vec<String> = Vec::new();
    if let Some(f) = fetch {
        if !f.fully_mapped {
            proof {
                assert(texts(out@) =~= Seq::empty());
            }
            return out;
        }
    }
    let ghost all = texts(writers@);
    let mut i: usize = 0;
    proof {
        reveal(Seq::filter);
        assert(all.take(0) =~= Seq::empty());
        assert(texts(out@) =~= Seq::empty());
    }
    while i < writers.len()
        invariant
            i <= writers.len(),
            all == texts(writers@),
            fetch is Some ==> fetch->0.fully_mapped,
            texts(out@) == standing_in(*fetch, all.take(i as int)),
        decreases writers.len() - i,
    {
        let ghost before = out@;
        let answered: bool = match fetch {
            Some(f) => names(&f.reachable_node_ids, &writers[i]),
            None => false,
        };
        proof {
            reveal(Seq::filter);
            assert(all.take(i + 1).drop_last() =~= all.take(i as int));
            assert(all.take(i + 1).last() == writers@[i as int]@);
        }
        if !answered {
            out.push(writers[i].clone());
            proof {
                assert(texts(out@) =~= texts(before).push(writers@[i as int]@));
                assert(all.take(i + 1) =~= all.take(i as int).push(writers@[i as int]@));
            }
        }
        i += 1;
    }
    proof {
        assert(all.take(i as int) =~= all);
    }
    out
}

/// Where every writer's node id is known, the log tail of a writer is read if and only if
/// the writer did not answer.
pub proof fn tails_stand_in_for_the_silent<B>(
    fetch: Option<HotChunksFetch<B>>,
    writers: Seq<RemoteWriterTarget>,
    outcomes: Seq<Result<Vec<B>, RemoteHotChunksError>>,
    tails: Seq<Seq<char>>,
    node_id: Seq<char>,
)
    requires
        is_fetch_of(fetch, writers, outcomes),
        forall|i: int| 0 <= i < writers.len() ==> (#[trigger] writers[i]).node_id is Some,
        tails.contains(node_id),
    ensures
        standing_in(fetch, tails).contains(node_id) <==> !is_reachable(writers, outcomes, node_id),
{
    match fetch {
        None => {
            if is_reachable(writers, outcomes, node_id) {
                let i = choose|i: int|
                    0 <= i < writers.len() && i < outcomes.len() && (
                    #[trigger] writers[i]).node_id is Some && writers[i].node_id->0@ == node_id
                        && outcomes[i] is Ok;
                assert(outcomes[i] is Ok);
                assert(any_answered(outcomes));
            }
        },
        Some(f) => {
            let silent = |w: Seq<char>| !texts(f.reachable_node_ids@).contains(w);
            broadcast use vstd::seq_lib::group_filter_ensures;

            assert(tails.filter(silent).contains(node_id) <==> silent(node_id)) by {
                if silent(node_id) {
                    let k = tails.index_of(node_id);
                    assert(tails[k] == node_id);
                }
            }
        },
    }
}

} // verus!

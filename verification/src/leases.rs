//! Singleton leases backed by an object store.
//!
//! A lease is a document at a well-known path that names its holder and when the
//! hold expires. Only one process at a time holds it: the document is created
//! only where there is none, and replaced only where it is still the version that
//! was read. The library decides what to ask the store next and what a reply
//! means; the caller performs the calls.

use vstd::prelude::*;

use crate::duration::Duration;

verus! {

/// Construction parameters for a [`Lease`].
#[derive(Debug)]
pub struct LeaseConfig {
    /// Object-store path of the lease document.
    pub path: String,
    /// Names the holder; typically the node together with something unique to the
    /// process, so that a restarted node does not take itself for its predecessor.
    pub owner: String,
    /// How long a hold lasts unless it is refreshed.
    pub ttl: Duration,
    /// How often a hold is refreshed.
    pub refresh_interval: Duration,
}

impl LeaseConfig {
    /// A lease that is refreshed three times within its lifetime.
    pub fn new(path: String, owner: String, ttl: Duration) -> (r: LeaseConfig)
        ensures
            r.path == path,
            r.owner == owner,
            r.ttl == ttl,
            r.refresh_interval.nanos == ttl.nanos as int / 3,
    {
        let refresh_interval: Duration = match ttl.checked_div(3) {
            Some(d) => d,
            None => Duration::from_secs(10),
        };
        LeaseConfig { path, owner, ttl, refresh_interval }
    }
}

/// The lease document.
#[derive(Debug, PartialEq, Eq)]
pub struct LeaseDoc {
    pub owner: String,
    pub acquired_at_unix_ms: i64,
    pub expires_at_unix_ms: i64,
}

impl LeaseDoc {
    fn duplicate(&self) -> (r: LeaseDoc)
        ensures
            r == *self,
    {
        LeaseDoc {
            owner: self.owner.clone(),
            acquired_at_unix_ms: self.acquired_at_unix_ms,
            expires_at_unix_ms: self.expires_at_unix_ms,
        }
    }
}

/// What the store knows a version of the document by.
#[derive(Debug, PartialEq, Eq)]
pub struct UpdateVersion {
    pub e_tag: Option<String>,
    pub version: Option<String>,
}

fn copy_text(s: &Option<String>) -> (r: Option<String>)
    ensures
        r == *s,
{
    match s {
        Some(t) => Some(t.clone()),
        None => None,
    }
}

impl UpdateVersion {
    fn duplicate(&self) -> (r: UpdateVersion)
        ensures
            r == *self,
    {
        UpdateVersion { e_tag: copy_text(&self.e_tag), version: copy_text(&self.version) }
    }
}

/// The view of an optional tag.
pub open spec fn tag_text(tag: Option<String>) -> Option<Seq<char>> {
    match tag {
        Some(t) => Some(t@),
        None => None,
    }
}

fn same_tag(a: &Option<String>, b: &Option<String>) -> (r: bool)
    ensures
        r == (tag_text(*a) == tag_text(*b)),
{
    match (a, b) {
        (Some(x), Some(y)) => *x == *y,
        (None, None) => true,
        _ => false,
    }
}

/// The lease document as the store has it, with its version.
#[derive(Debug, PartialEq, Eq)]
pub struct StoredLease {
    pub version: UpdateVersion,
    pub doc: LeaseDoc,
}

/// Why the store did not do what it was asked.
#[derive(Debug, PartialEq, Eq)]
pub enum StoreFailure {
    AlreadyExists,
    NotFound,
    Precondition,
    NotSupported,
    Other(String),
}

/// Why an attempt on a lease ended without an answer.
#[derive(Debug, PartialEq, Eq)]
pub enum LeaseError {
    /// The store failed.
    ObjectStore(StoreFailure),
    /// The document could not be read or written as one.
    SerdeJson(String),
    /// The reply does not answer the call.
    UnexpectedReply,
}

/// What to ask of the store. Every call is about the path of the lease.
#[derive(Debug, PartialEq, Eq)]
pub enum StoreCall {
    /// Write the document, if there is none.
    Create(LeaseDoc),
    /// Read the document, with its version.
    Read,
    /// Write the document, if its version is still this one.
    Update(LeaseDoc, UpdateVersion),
    /// Write the document.
    Put(LeaseDoc),
}

/// What the store replied.
#[derive(Debug, PartialEq, Eq)]
pub enum StoreReply {
    /// To a write: the version written.
    Written(Result<UpdateVersion, StoreFailure>),
    /// To a read: the document, with the version that was read.
    Document(Result<StoredLease, LeaseError>),
}

/// How far an attempt to acquire a lease has come: which call is out.
#[derive(Debug, Clone, Copy, PartialEq, Eq, Structural)]
pub enum AcquireStage {
    Create,
    Read,
    Update,
    ReadUnguarded,
    PutUnguarded,
}

/// An attempt to acquire a lease, waiting for a reply.
#[derive(Debug, PartialEq, Eq)]
pub struct Acquire {
    /// The document to write.
    pub doc: LeaseDoc,
    /// When the attempt was made.
    pub now_unix_ms: i64,
    pub stage: AcquireStage,
}

/// What an attempt does next.
#[derive(Debug, PartialEq, Eq)]
pub enum AcquireStep {
    /// Make this call, and hand its reply to the attempt at this stage.
    Call(AcquireStage, StoreCall),
    /// This process now holds the lease, under this version.
    Held(UpdateVersion),
    /// Another live holder owns it.
    Refused,
    /// The attempt failed.
    Failed(LeaseError),
}

/// The lifetime in milliseconds, as the timestamps count them.
pub open spec fn ttl_ms(ttl: Duration) -> i64 {
    ttl.millis() as i64
}

/// The document that a holder writes at `now`.
pub open spec fn lease_doc(config: LeaseConfig, now: i64) -> LeaseDoc {
    LeaseDoc {
        owner: config.owner,
        acquired_at_unix_ms: now,
        expires_at_unix_ms: (now + ttl_ms(config.ttl)) as i64,
    }
}

/// The document is that of another holder, and has not expired.
pub open spec fn is_taken(doc: LeaseDoc, now: i64, owner: Seq<char>) -> bool {
    doc.expires_at_unix_ms > now && doc.owner@ != owner
}

/// What an attempt does next on a reply.
///
/// The document is created if there is none. Where there is one of another holder, that one
/// keeps the lease until it expires; after that, or where the document is this process's own,
/// it is replaced, if its version is still the one that was read. On a store that cannot
/// create conditionally, the document is written unless another holder's is live.
pub open spec fn acquire_step(
    attempt: Acquire,
    owner: Seq<char>,
    reply: StoreReply,
) -> AcquireStep {
    match (attempt.stage, reply) {
        (AcquireStage::Create, StoreReply::Written(Ok(v))) => AcquireStep::Held(v),
        (
            AcquireStage::Create,
            StoreReply::Written(Err(StoreFailure::AlreadyExists)),
        ) => AcquireStep::Call(AcquireStage::Read, StoreCall::Read),
        (
            AcquireStage::Create,
            StoreReply::Written(Err(StoreFailure::NotSupported)),
        ) => AcquireStep::Call(AcquireStage::ReadUnguarded, StoreCall::Read),
        (AcquireStage::Create, StoreReply::Written(Err(e))) => AcquireStep::Failed(
            LeaseError::ObjectStore(e),
        ),
        (AcquireStage::Read, StoreReply::Document(Ok(found))) => if is_taken(
            found.doc,
            attempt.now_unix_ms,
            owner,
        ) {
            AcquireStep::Refused
        } else {
            AcquireStep::Call(AcquireStage::Update, StoreCall::Update(attempt.doc, found.version))
        },
        (AcquireStage::Read, StoreReply::Document(Err(e))) => AcquireStep::Failed(e),
        (AcquireStage::Update, StoreReply::Written(Ok(v))) => AcquireStep::Held(v),
        (
            AcquireStage::Update,
            StoreReply::Written(Err(StoreFailure::Precondition)),
        ) => AcquireStep::Refused,
        (AcquireStage::Update, StoreReply::Written(Err(e))) => AcquireStep::Failed(
            LeaseError::ObjectStore(e),
        ),
        (AcquireStage::ReadUnguarded, StoreReply::Document(Ok(found))) => if is_taken(
            found.doc,
            attempt.now_unix_ms,
            owner,
        ) {
            AcquireStep::Refused
        } else {
            AcquireStep::Call(AcquireStage::PutUnguarded, StoreCall::Put(attempt.doc))
        },
        (
            AcquireStage::ReadUnguarded,
            StoreReply::Document(Err(LeaseError::ObjectStore(StoreFailure::NotFound))),
        ) => AcquireStep::Call(AcquireStage::PutUnguarded, StoreCall::Put(attempt.doc)),
        (AcquireStage::ReadUnguarded, StoreReply::Document(Err(e))) => AcquireStep::Failed(e),
        (AcquireStage::PutUnguarded, StoreReply::Written(Ok(v))) => AcquireStep::Held(v),
        (AcquireStage::PutUnguarded, StoreReply::Written(Err(e))) => AcquireStep::Failed(
            LeaseError::ObjectStore(e),
        ),
        _ => AcquireStep::Failed(LeaseError::UnexpectedReply),
    }
}

/// What a refresh does on a reply: the hold is extended, or it is lost, or nothing
/// is known.
#[derive(Debug, PartialEq, Eq)]
pub enum RefreshOutcome {
    Extended(UpdateVersion),
    Lost,
    Failed(LeaseError),
}

/// What a reply to the refreshing write means. The document having been replaced
/// or deleted means that the hold is lost.
pub open spec fn refresh_outcome(reply: Result<UpdateVersion, StoreFailure>) -> RefreshOutcome {
    match reply {
        Ok(v) => RefreshOutcome::Extended(v),
        Err(StoreFailure::Precondition) => RefreshOutcome::Lost,
        Err(StoreFailure::NotFound) => RefreshOutcome::Lost,
        Err(e) => RefreshOutcome::Failed(LeaseError::ObjectStore(e)),
    }
}

/// What a process knows of its hold.
pub struct Hold {
    /// The version under which it holds the lease, if it does.
    pub version: Option<UpdateVersion>,
    pub expires_at_unix_ms: i64,
}

impl Hold {
    /// The lease is held and has not expired.
    pub open spec fn leads(self, now: i64) -> bool {
        self.version is Some && self.expires_at_unix_ms > now
    }
}

/// Tracks the ownership of a lease for one process.
#[derive(Debug)]
pub struct Lease {
    config: LeaseConfig,
    held_version: Option<UpdateVersion>,
    expires_at_unix_ms: i64,
}

impl View for Lease {
    type V = Hold;

    closed spec fn view(&self) -> Hold {
        Hold { version: self.held_version, expires_at_unix_ms: self.expires_at_unix_ms }
    }
}

impl Lease {
    /// The parameters of the lease.
    pub closed spec fn params(self) -> LeaseConfig {
        self.config
    }

    /// A lease that is not held yet.
    pub fn new(config: LeaseConfig) -> (r: Lease)
        ensures
            r.params() == config,
            r@ == (Hold { version: None, expires_at_unix_ms: 0 }),
    {
        Lease { config, held_version: None, expires_at_unix_ms: 0 }
    }

    /// The parameters of the lease.
    pub fn config(&self) -> (r: &LeaseConfig)
        ensures
            *r == self.params(),
    {
        &self.config
    }

    /// Whether this process holds the lease, and the hold has not expired.
    pub fn is_leader(&self, now_unix_ms: i64) -> (r: bool)
        ensures
            r == self@.leads(now_unix_ms),
    {
        self.held_version.is_some() && self.expires_at_unix_ms > now_unix_ms
    }

    fn document(&self, now_unix_ms: i64) -> (r: LeaseDoc)
        requires
            i64::MIN <= now_unix_ms + ttl_ms(self.params().ttl) <= i64::MAX,
        ensures
            r == lease_doc(self.params(), now_unix_ms),
    {
        let ttl: i64 = #[verifier::truncate]
        (self.config.ttl.as_millis() as i64);
        LeaseDoc {
            owner: self.config.owner.clone(),
            acquired_at_unix_ms: now_unix_ms,
            expires_at_unix_ms: now_unix_ms + ttl,
        }
    }

    /// Starts one attempt to acquire the lease, or to take it over once it has
    /// expired: hands out the attempt and the first call to make.
    pub fn try_acquire(&self, now_unix_ms: i64) -> (r: (Acquire, StoreCall))
        requires
            i64::MIN <= now_unix_ms + ttl_ms(self.params().ttl) <= i64::MAX,
        ensures
            r.0 == (Acquire {
                doc: lease_doc(self.params(), now_unix_ms),
                now_unix_ms,
                stage: AcquireStage::Create,
            }),
            r.1 == StoreCall::Create(lease_doc(self.params(), now_unix_ms)),
    {
        let doc = self.document(now_unix_ms);
        let call = StoreCall::Create(doc.duplicate());
        (Acquire { doc, now_unix_ms, stage: AcquireStage::Create }, call)
    }

    /// Goes on with an attempt once the store has replied. Where the reply makes
    /// this process the holder, the hold is recorded.
    pub fn resume_acquire(&mut self, attempt: &Acquire, reply: StoreReply) -> (r: AcquireStep)
        ensures
            final(self).params() == old(self).params(),
            r == acquire_step(*attempt, old(self).params().owner@, reply),
            final(self)@ == match r {
                AcquireStep::Held(v) => Hold {
                    version: Some(v),
                    expires_at_unix_ms: attempt.doc.expires_at_unix_ms,
                },
                _ => old(self)@,
            },
    {
        match (attempt.stage, reply) {
            (AcquireStage::Create, StoreReply::Written(Ok(v)))
            | (AcquireStage::Update, StoreReply::Written(Ok(v)))
            | (AcquireStage::PutUnguarded, StoreReply::Written(Ok(v))) => {
                self.held_version = Some(v.duplicate());
                self.expires_at_unix_ms = attempt.doc.expires_at_unix_ms;
                AcquireStep::Held(v)
            },
            (AcquireStage::Create, StoreReply::Written(Err(e))) => match e {
                StoreFailure::AlreadyExists => AcquireStep::Call(
                    AcquireStage::Read,
                    StoreCall::Read,
                ),
                StoreFailure::NotSupported => AcquireStep::Call(
                    AcquireStage::ReadUnguarded,
                    StoreCall::Read,
                ),
                e => AcquireStep::Failed(LeaseError::ObjectStore(e)),
            },
            (AcquireStage::Read, StoreReply::Document(Ok(found))) => {
                if found.doc.expires_at_unix_ms > attempt.now_unix_ms && found.doc.owner
                    != self.config.owner {
                    AcquireStep::Refused
                } else {
                    AcquireStep::Call(
                        AcquireStage::Update,
                        StoreCall::Update(attempt.doc.duplicate(), found.version),
                    )
                }
            },
            (AcquireStage::Read, StoreReply::Document(Err(e))) => AcquireStep::Failed(e),
            (AcquireStage::Update, StoreReply::Written(Err(e))) => match e {
                StoreFailure::Precondition => AcquireStep::Refused,
                e => AcquireStep::Failed(LeaseError::ObjectStore(e)),
            },
            (AcquireStage::ReadUnguarded, StoreReply::Document(Ok(found))) => {
                if found.doc.expires_at_unix_ms > attempt.now_unix_ms && found.doc.owner
                    != self.config.owner {
                    AcquireStep::Refused
                } else {
                    AcquireStep::Call(
                        AcquireStage::PutUnguarded,
                        StoreCall::Put(attempt.doc.duplicate()),
                    )
                }
            },
            (AcquireStage::ReadUnguarded, StoreReply::Document(Err(e))) => match e {
                LeaseError::ObjectStore(StoreFailure::NotFound) => AcquireStep::Call(
                    AcquireStage::PutUnguarded,
                    StoreCall::Put(attempt.doc.duplicate()),
                ),
                e => AcquireStep::Failed(e),
            },
            (AcquireStage::PutUnguarded, StoreReply::Written(Err(e))) => AcquireStep::Failed(
                LeaseError::ObjectStore(e),
            ),
            _ => AcquireStep::Failed(LeaseError::UnexpectedReply),
        }
    }

    /// The write that extends the hold, if there is one to extend: the document
    /// and the version that it has to replace.
    pub fn refresh(&self, now_unix_ms: i64) -> (r: Option<(LeaseDoc, UpdateVersion)>)
        requires
            i64::MIN <= now_unix_ms + ttl_ms(self.params().ttl) <= i64::MAX,
        ensures
            r == match self@.version {
                Some(v) => Some((lease_doc(self.params(), now_unix_ms), v)),
                None => None,
            },
    {
        match &self.held_version {
            Some(v) => Some((self.document(now_unix_ms), v.duplicate())),
            None => None,
        }
    }

    /// Takes the reply to the write that was to extend the hold.
    pub fn resume_refresh(
        &mut self,
        doc: &LeaseDoc,
        reply: Result<UpdateVersion, StoreFailure>,
    ) -> (r: RefreshOutcome)
        ensures
            final(self).params() == old(self).params(),
            r == refresh_outcome(reply),
            final(self)@ == match r {
                RefreshOutcome::Extended(v) => Hold {
                    version: Some(v),
                    expires_at_unix_ms: doc.expires_at_unix_ms,
                },
                RefreshOutcome::Lost => Hold { version: None, ..old(self)@ },
                RefreshOutcome::Failed(_) => old(self)@,
            },
    {
        match reply {
            Ok(v) => {
                self.held_version = Some(v.duplicate());
                self.expires_at_unix_ms = doc.expires_at_unix_ms;
                RefreshOutcome::Extended(v)
            },
            Err(e) => match e {
                StoreFailure::Precondition | StoreFailure::NotFound => {
                    self.held_version = None;
                    RefreshOutcome::Lost
                },
                e => RefreshOutcome::Failed(LeaseError::ObjectStore(e)),
            },
        }
    }

    /// Whether there is a hold to release.
    pub fn has_hold(&self) -> (r: bool)
        ensures
            r == (self@.version is Some),
    {
        self.held_version.is_some()
    }

    /// Gives the hold up. Whether to delete the document, given what a look-up of its version
    /// replied: it is deleted where it is still this process's own. One that a successor has
    /// written, or of which nothing is known, is left alone.
    pub fn release(&mut self, head: &Result<UpdateVersion, StoreFailure>) -> (r: bool)
        ensures
            final(self).params() == old(self).params(),
            final(self)@ == (Hold { version: None, ..old(self)@ }),
            r == match (old(self)@.version, *head) {
                (Some(held), Ok(found)) => tag_text(found.e_tag) == tag_text(held.e_tag),
                (Some(_), Err(StoreFailure::NotFound)) => true,
                _ => false,
            },
    {
        let delete: bool = match &self.held_version {
            Some(held) => match head {
                Ok(found) => same_tag(&found.e_tag, &held.e_tag),
                Err(e) => matches!(e, StoreFailure::NotFound),
            },
            None => false,
        };
        self.held_version = None;
        delete
    }

    /// How long to wait before the next attempt: the refresh interval while the
    /// lease is held, half its lifetime while it is not.
    pub fn next_wait(&self, now_unix_ms: i64) -> (r: Duration)
        ensures
            r.nanos == if self@.leads(now_unix_ms) {
                self.params().refresh_interval.nanos as int
            } else {
                self.params().ttl.nanos as int / 2
            },
    {
        if self.is_leader(now_unix_ms) {
            self.config.refresh_interval
        } else {
            match self.config.ttl.checked_div(2) {
                Some(d) => d,
                None => Duration::from_secs(5),
            }
        }
    }
}

/// What a process does about its lease when it wakes up.
#[derive(Debug, PartialEq, Eq)]
pub enum LeaseTurn {
    /// Extend the hold: write the document over this version.
    Renew(LeaseDoc, UpdateVersion),
    /// Try to acquire the lease, starting with this call.
    Acquire(Acquire, StoreCall),
}

impl Lease {
    /// What to do next: a process that leads extends its hold, and any other tries to acquire
    /// the lease, also one whose hold has expired.
    pub fn next_turn(&self, now_unix_ms: i64) -> (r: LeaseTurn)
        requires
            i64::MIN <= now_unix_ms + ttl_ms(self.params().ttl) <= i64::MAX,
        ensures
            ({
                let doc = lease_doc(self.params(), now_unix_ms);
                r == if self@.leads(now_unix_ms) {
                    LeaseTurn::Renew(doc, self@.version->0)
                } else {
                    LeaseTurn::Acquire(
                        Acquire { doc, now_unix_ms, stage: AcquireStage::Create },
                        StoreCall::Create(doc),
                    )
                }
            }),
    {
        if self.is_leader(now_unix_ms) {
            if let Some((doc, version)) = self.refresh(now_unix_ms) {
                return LeaseTurn::Renew(doc, version);
            }
        }
        let (attempt, call) = self.try_acquire(now_unix_ms);
        LeaseTurn::Acquire(attempt, call)
    }
}

/// What became of an attempt.
#[derive(Debug, Clone, Copy, PartialEq, Eq, Structural)]
pub enum Outcome {
    /// This process holds the lease.
    Held,
    /// Another process holds it.
    NotHeld,
    /// The attempt failed.
    Error,
}

/// What to report of an attempt: the operation, its result, and whether this
/// process leads, where that is known.
#[derive(Debug, Clone, Copy, PartialEq, Eq)]
pub struct Report {
    pub op: &'static str,
    pub result: &'static str,
    pub leader: Option<bool>,
}

/// What to report of a refresh (`renew`) or of an attempt to acquire the lease. An
/// error says nothing about who leads.
pub fn report(renew: bool, outcome: Outcome) -> (r: Report)
    ensures
        r.op@ == if renew {
            "renew"@
        } else {
            "acquire"@
        },
        r.result@ == match outcome {
            Outcome::Held => "ok"@,
            Outcome::NotHeld => if renew {
                "lost"@
            } else {
                "conflict"@
            },
            Outcome::Error => "error"@,
        },
        r.leader == match outcome {
            Outcome::Held => Some(true),
            Outcome::NotHeld => Some(false),
            Outcome::Error => None,
        },
{
    let op = if renew {
        "renew"
    } else {
        "acquire"
    };
    match outcome {
        Outcome::Held => Report { op, result: "ok", leader: Some(true) },
        Outcome::NotHeld => Report {
            op,
            result: if renew {
                "lost"
            } else {
                "conflict"
            },
            leader: Some(false),
        },
        Outcome::Error => Report { op, result: "error", leader: None },
    }
}

} // verus!

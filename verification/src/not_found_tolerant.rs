//! Scans that pass over files whose objects are gone.
//!
//! A compaction publishes its output before it deletes its inputs, so a querier may
//! still refer to an input that is gone while the output is in the same plan. Such a
//! file is scanned as empty, or ends early. Any other failure is passed on.

use vstd::prelude::*;

verus! {

/// A link in the chain of causes of an error.
#[derive(Debug, Clone, Copy, PartialEq, Eq, Structural)]
pub enum ErrorLink {
    /// The object store did not find the object.
    ObjectNotFound,
    /// Anything else.
    Other,
}

/// Whether the object store's not finding an object is anywhere in the chain of causes.
/// A cache may wrap it, so the whole chain counts.
pub fn is_object_store_not_found(chain: &Vec<ErrorLink>) -> (r: bool)
    ensures
        r == chain@.contains(ErrorLink::ObjectNotFound),
{
    let mut i: usize = 0;
    while i < chain.len()
        invariant
            i <= chain.len(),
            forall|j: int| 0 <= j < i ==> chain@[j] != ErrorLink::ObjectNotFound,
        decreases chain.len() - i,
    {
        if chain[i] == ErrorLink::ObjectNotFound {
            return true;
        }
        i += 1;
    }
    false
}

/// A failure of a scan: the error, and the chain of its causes.
#[derive(Debug)]
pub struct ScanFailure<E> {
    pub error: E,
    pub chain: Vec<ErrorLink>,
}

impl<E> ScanFailure<E> {
    /// The object of the file is gone.
    pub open spec fn is_not_found(self) -> bool {
        self.chain@.contains(ErrorLink::ObjectNotFound)
    }
}

/// What becomes of opening a file: `None` where its object is gone, so that the file is
/// scanned as empty.
pub fn tolerate_open<S, E>(outcome: Result<S, ScanFailure<E>>) -> (r: Result<
    Option<S>,
    ScanFailure<E>,
>)
    ensures
        r == match outcome {
            Ok(stream) => Ok(Some(stream)),
            Err(e) => if e.is_not_found() {
                Ok(None)
            } else {
                Err(e)
            },
        },
{
    match outcome {
        Ok(stream) => Ok(Some(stream)),
        Err(e) => {
            if is_object_store_not_found(&e.chain) {
                Ok(None)
            } else {
                Err(e)
            }
        },
    }
}

/// The scan of one file.
#[derive(Debug, Clone, Copy, PartialEq, Eq, Structural)]
pub struct FileScan {
    /// The object was found to be gone; nothing more comes.
    pub stopped: bool,
}

impl FileScan {
    /// Takes the next item of a file. `None` ends the file.
    pub fn next<B, E>(&mut self, item: Result<B, ScanFailure<E>>) -> (r: Option<
        Result<B, ScanFailure<E>>,
    >)
        ensures
            ({
                let gone = item is Err && item->Err_0.is_not_found();
                &&& r == if old(self).stopped || gone {
                    None
                } else {
                    Some(item)
                }
                &&& final(self).stopped == (old(self).stopped || gone)
            }),
    {
        if self.stopped {
            return None;
        }
        match item {
            Ok(batch) => Some(Ok(batch)),
            Err(e) => {
                if is_object_store_not_found(&e.chain) {
                    self.stopped = true;
                    None
                } else {
                    Some(Err(e))
                }
            },
        }
    }
}

/// The items up to the first that says that the object is gone.
pub open spec fn before_not_found<B, E>(items: Seq<Result<B, ScanFailure<E>>>) -> Seq<
    Result<B, ScanFailure<E>>,
>
    decreases items.len(),
{
    if items.len() == 0 || (items[0] is Err && items[0]->Err_0.is_not_found()) {
        Seq::empty()
    } else {
        seq![items[0]] + before_not_found(items.skip(1))
    }
}

proof fn before_not_found_prefix<B, E>(items: Seq<Result<B, ScanFailure<E>>>, n: int)
    requires
        0 <= n <= items.len(),
        forall|i: int|
            0 <= i < n ==> !((#[trigger] items[i]) is Err && items[i]->Err_0.is_not_found()),
        n == items.len() || (items[n] is Err && items[n]->Err_0.is_not_found()),
    ensures
        before_not_found(items) == items.take(n),
    decreases items.len(),
{
    if n == 0 {
        assert(items.take(0) =~= Seq::empty());
    } else {
        let rest = items.skip(1);
        assert(!(items[0] is Err && items[0]->Err_0.is_not_found()));
        assert forall|i: int| 0 <= i < n - 1 implies !((#[trigger] rest[i]) is Err
            && rest[i]->Err_0.is_not_found()) by {
            assert(rest[i] == items[i + 1]);
        }
        if n < items.len() {
            assert(rest[n - 1] == items[n]);
        }
        before_not_found_prefix(rest, n - 1);
        assert(items.take(n) =~= seq![items[0]] + rest.take(n - 1));
    }
}

/// The items of a file as a scan hands them on: other failures are passed on, and the
/// file ends where its object is found to be gone.
pub fn tolerate_items<B, E>(items: Vec<Result<B, ScanFailure<E>>>) -> (r: Vec<
    Result<B, ScanFailure<E>>,
>)
    ensures
        r@ == before_not_found(items@),
{
    let ghost all = items@;
    let mut out: Vec<Result<B, ScanFailure<E>>> = Vec::new();
    let mut scan = FileScan { stopped: false };
    let ghost mut n: int = 0;
    for item in it: items
        invariant
            it.seq() == all,
            0 <= n <= it.index() <= all.len(),
            out@ == all.take(n),
            !scan.stopped ==> n == it.index(),
            scan.stopped ==> n < all.len() && all[n] is Err && all[n]->Err_0.is_not_found(),
            forall|i: int|
                0 <= i < n ==> !((#[trigger] all[i]) is Err && all[i]->Err_0.is_not_found()),
    {
        let ghost stopped = scan.stopped;
        proof {
            assert(item == all[it.index() as int]);
        }
        match scan.next(item) {
            Some(kept) => {
                out.push(kept);
                proof {
                    n = n + 1;
                    assert(out@ =~= all.take(n));
                }
            },
            None => {},
        }
    }
    proof {
        before_not_found_prefix(all, n);
    }
    out
}

} // verus!

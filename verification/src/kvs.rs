//! Transactions over interchangeable storage backends.
//!
//! A backend holds byte values under byte keys, ordered byte-wise. All work
//! on it goes through a session that is opened for reading or for writing,
//! sees its own writes, and ends once, by commit or by cancel.

use vstd::prelude::*;
use std::ops::Range;
use crate::err::Error;
use crate::key::order::{in_range, lex_lt};

pub mod mem;
pub mod theory;
pub mod tx;

verus! {

/// The bytes under which a value is stored.
pub type Key = Vec<u8>;

/// The bytes that are stored under a key.
pub type Val = Vec<u8>;

/// What a backend and the session on it hold, as contracts speak of it.
pub struct State {
    /// What was last committed.
    pub committed: Map<Seq<u8>, Seq<u8>>,
    /// What the session sees: what was committed when it began, and its own
    /// writes on top.
    pub data: Map<Seq<u8>, Seq<u8>>,
    /// No session is open: none was begun yet, or the last one has ended.
    pub closed: bool,
    /// The session was opened for writing.
    pub writable: bool,
}

impl State {
    /// The state in which a session begins.
    pub open spec fn begun(self, write: bool) -> State {
        State { committed: self.committed, data: self.committed, closed: false, writable: write }
    }

    /// What reading `key` gives.
    pub open spec fn get(self, key: Seq<u8>) -> Result<Option<Seq<u8>>, Error> {
        if self.closed {
            Err(Error::TxClosed)
        } else if self.data.contains_key(key) {
            Ok(Some(self.data[key]))
        } else {
            Ok(None)
        }
    }

    /// What asking whether `key` is there gives.
    pub open spec fn exi(self, key: Seq<u8>) -> Result<bool, Error> {
        if self.closed {
            Err(Error::TxClosed)
        } else {
            Ok(self.data.contains_key(key))
        }
    }

    /// What a write that depends on no key gives.
    pub open spec fn write_result(self) -> Result<(), Error> {
        if self.closed {
            Err(Error::TxClosed)
        } else if !self.writable {
            Err(Error::TxReadonly)
        } else {
            Ok(())
        }
    }

    /// What inserting under `key` gives.
    pub open spec fn put_result(self, key: Seq<u8>) -> Result<(), Error> {
        if self.write_result() is Err {
            self.write_result()
        } else if self.data.contains_key(key) {
            Err(Error::KeyAlreadyExists)
        } else {
            Ok(())
        }
    }

    /// `r` is what a scan from `lo`, inclusive, to `hi`, exclusive, gives
    /// under `limit`.
    pub open spec fn scan(
        self,
        lo: Seq<u8>,
        hi: Seq<u8>,
        limit: nat,
        r: Result<Seq<(Seq<u8>, Seq<u8>)>, Error>,
    ) -> bool {
        if self.closed {
            r == Err::<Seq<(Seq<u8>, Seq<u8>)>, Error>(Error::TxClosed)
        } else {
            r matches Ok(pairs) && is_scan(self.data, lo, hi, limit, pairs)
        }
    }

    /// What ending the session gives, by commit or by cancel.
    pub open spec fn end_result(self) -> Result<(), Error> {
        if self.closed {
            Err(Error::TxClosed)
        } else {
            Ok(())
        }
    }

    /// The state after storing `val` under `key`, whether or not `key` was
    /// there.
    pub open spec fn after_set(self, key: Seq<u8>, val: Seq<u8>) -> State {
        if self.write_result() is Ok {
            State { data: self.data.insert(key, val), ..self }
        } else {
            self
        }
    }

    /// The state after inserting `val` under `key`.
    pub open spec fn after_put(self, key: Seq<u8>, val: Seq<u8>) -> State {
        if self.put_result(key) is Ok {
            State { data: self.data.insert(key, val), ..self }
        } else {
            self
        }
    }

    /// The state after deleting `key`.
    pub open spec fn after_del(self, key: Seq<u8>) -> State {
        if self.write_result() is Ok {
            State { data: self.data.remove(key), ..self }
        } else {
            self
        }
    }

    /// The state after a commit: what the session saw is what is committed.
    pub open spec fn after_commit(self) -> State {
        if self.closed {
            self
        } else {
            State { committed: self.data, closed: true, ..self }
        }
    }

    /// The state after a cancel: what the session wrote is gone.
    pub open spec fn after_cancel(self) -> State {
        if self.closed {
            self
        } else {
            State { data: self.committed, closed: true, ..self }
        }
    }

    /// The state after a commit that the backend refused: the session has
    /// ended and nothing was applied.
    pub open spec fn after_failed_commit(self) -> State {
        State { closed: true, ..self }
    }
}

/// The keys and values of `pairs`, as byte sequences.
pub open spec fn pairs_view(pairs: Seq<(Key, Val)>) -> Seq<(Seq<u8>, Seq<u8>)> {
    Seq::new(pairs.len(), |i: int| (pairs[i].0@, pairs[i].1@))
}

/// The keys of `pairs` ascend strictly in byte-wise order.
pub open spec fn ascending(pairs: Seq<(Seq<u8>, Seq<u8>)>) -> bool {
    forall|i: int, j: int| 0 <= i < j < pairs.len() ==> lex_lt(pairs[i].0, pairs[j].0)
}

/// `pairs` is what a scan of `data` from `lo`, inclusive, to `hi`,
/// exclusive, gives under `limit`: the pairs of `data` whose keys lie in the
/// range, in ascending order of their keys; all of them where `limit` is 0,
/// and else the first `limit` of them.
pub open spec fn is_scan(
    data: Map<Seq<u8>, Seq<u8>>,
    lo: Seq<u8>,
    hi: Seq<u8>,
    limit: nat,
    pairs: Seq<(Seq<u8>, Seq<u8>)>,
) -> bool {
    &&& ascending(pairs)
    &&& limit > 0 ==> pairs.len() <= limit
    &&& forall|i: int|
        0 <= i < pairs.len() ==> {
            &&& in_range(#[trigger] pairs[i].0, lo, hi)
            &&& data.contains_key(pairs[i].0)
            &&& data[pairs[i].0] == pairs[i].1
        }
    &&& forall|k: Seq<u8>|
        #![trigger data.contains_key(k)]
        data.contains_key(k) && in_range(k, lo, hi) ==> {
            ||| exists|i: int| 0 <= i < pairs.len() && pairs[i].0 == k
            ||| limit > 0 && pairs.len() == limit && lex_lt(pairs.last().0, k)
        }
}

/// The value that a read gave, as a byte sequence.
pub open spec fn value_view(r: Result<Option<Val>, Error>) -> Result<Option<Seq<u8>>, Error> {
    match r {
        Ok(Some(v)) => Ok(Some(v@)),
        Ok(None) => Ok(None),
        Err(e) => Err(e),
    }
}

/// The pairs that a scan gave, as byte sequences.
pub open spec fn scan_view(r: Result<Vec<(Key, Val)>, Error>) -> Result<
    Seq<(Seq<u8>, Seq<u8>)>,
    Error,
> {
    match r {
        Ok(pairs) => Ok(pairs_view(pairs@)),
        Err(e) => Err(e),
    }
}

/// A backend that may fail did so on an open session: it reports that it is
/// unavailable and has changed nothing.
pub open spec fn unavailable<T>(reliable: bool, pre: State, post: State, r: Result<T, Error>)
    -> bool {
    &&& !reliable
    &&& !pre.closed
    &&& post == pre
    &&& r matches Err(e)
    &&& e == Error::BackendUnavailable
}

/// A handle on a storage engine, through which one session runs at a time.
///
/// Every operation on a session that has ended is refused with
/// `Error::TxClosed` and changes nothing. On an open session an operation
/// does what `State` says of it; a backend that is not `reliable` may instead
/// report `Error::BackendUnavailable` and, at commit, `Error::Conflict`.
pub trait Backend: Sized {
    /// What the backend and its session hold.
    spec fn state(&self) -> State;

    /// The backend never fails on an open session.
    spec fn reliable(&self) -> bool;

    /// Begins a session, for writing if `write` says so. A session that was
    /// still open is cancelled first.
    fn begin(&mut self, write: bool)
        ensures
            final(self).reliable() == old(self).reliable(),
            final(self).state().data == final(self).state().committed,
            !final(self).state().closed,
            final(self).state().writable == write,
            final(self).reliable() ==> final(self).state() == old(self).state().begun(write),
    ;

    /// Says whether the session has ended.
    fn closed(&self) -> (r: bool)
        ensures
            r == self.state().closed,
    ;

    /// Ends the session and discards what it wrote.
    fn cancel(&mut self) -> (r: Result<(), Error>)
        ensures
            final(self).reliable() == old(self).reliable(),
            final(self).state() == old(self).state().after_cancel(),
            r == old(self).state().end_result(),
    ;

    /// Ends the session and applies what it wrote.
    fn commit(&mut self) -> (r: Result<(), Error>)
        ensures
            final(self).reliable() == old(self).reliable(),
            ({
                ||| {
                    &&& final(self).state() == old(self).state().after_commit()
                    &&& r == old(self).state().end_result()
                }
                ||| {
                    &&& !old(self).reliable()
                    &&& !old(self).state().closed
                    &&& final(self).state() == old(self).state().after_failed_commit()
                    &&& r matches Err(e)
                    &&& (e == Error::Conflict || e == Error::BackendUnavailable)
                }
            }),
    ;

    /// Deletes `key`, if it is there.
    fn del(&mut self, key: Key) -> (r: Result<(), Error>)
        ensures
            final(self).reliable() == old(self).reliable(),
            ({
                ||| {
                    &&& final(self).state() == old(self).state().after_del(key@)
                    &&& r == old(self).state().write_result()
                }
                ||| unavailable(old(self).reliable(), old(self).state(), final(self).state(), r)
            }),
    ;

    /// Says whether `key` is there.
    fn exi(&mut self, key: Key) -> (r: Result<bool, Error>)
        ensures
            final(self).reliable() == old(self).reliable(),
            final(self).state() == old(self).state(),
            ({
                ||| r == old(self).state().exi(key@)
                ||| unavailable(old(self).reliable(), old(self).state(), final(self).state(), r)
            }),
    ;

    /// Reads the value under `key`.
    fn get(&mut self, key: Key) -> (r: Result<Option<Val>, Error>)
        ensures
            final(self).reliable() == old(self).reliable(),
            final(self).state() == old(self).state(),
            ({
                ||| value_view(r) == old(self).state().get(key@)
                ||| unavailable(old(self).reliable(), old(self).state(), final(self).state(), r)
            }),
    ;

    /// Stores `val` under `key`, whether or not `key` is there.
    fn set(&mut self, key: Key, val: Val) -> (r: Result<(), Error>)
        ensures
            final(self).reliable() == old(self).reliable(),
            ({
                ||| {
                    &&& final(self).state() == old(self).state().after_set(key@, val@)
                    &&& r == old(self).state().write_result()
                }
                ||| unavailable(old(self).reliable(), old(self).state(), final(self).state(), r)
            }),
    ;

    /// Stores `val` under `key` unless `key` is there.
    fn put(&mut self, key: Key, val: Val) -> (r: Result<(), Error>)
        ensures
            final(self).reliable() == old(self).reliable(),
            ({
                ||| {
                    &&& final(self).state() == old(self).state().after_put(key@, val@)
                    &&& r == old(self).state().put_result(key@)
                }
                ||| unavailable(old(self).reliable(), old(self).state(), final(self).state(), r)
            }),
    ;

    /// Reads the pairs whose keys lie from `rng.start`, inclusive, to
    /// `rng.end`, exclusive, in ascending order of their keys: all of them
    /// where `limit` is 0, and else the first `limit`.
    fn scan(&mut self, rng: Range<Key>, limit: u32) -> (r: Result<Vec<(Key, Val)>, Error>)
        ensures
            final(self).reliable() == old(self).reliable(),
            final(self).state() == old(self).state(),
            ({
                ||| old(self).state().scan(rng.start@, rng.end@, limit as nat, scan_view(r))
                ||| unavailable(old(self).reliable(), old(self).state(), final(self).state(), r)
            }),
    ;
}

} // verus!

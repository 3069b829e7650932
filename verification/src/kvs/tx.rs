//! The transaction: one surface of operations over whichever backend it was
//! opened on.
//!
//! A transaction is open from the moment it is made until its first commit
//! or cancel. Before it hands an operation to its backend it asks whether
//! the session has ended, and if so refuses with `Error::TxClosed` without
//! touching the backend. What the backend answers is handed back unchanged.

use vstd::prelude::*;
use std::ops::Range;
use crate::err::Error;
use crate::kvs::{scan_view, unavailable, value_view, Backend, Key, State, Val};

verus! {

/// A session on one backend.
pub struct Transaction<B: Backend> {
    backend: B,
}

impl<B: Backend> Transaction<B> {
    /// The backend that the transaction runs on.
    pub closed spec fn backend(&self) -> B {
        self.backend
    }

    /// What the backend and the session hold.
    pub open spec fn state(&self) -> State {
        self.backend().state()
    }

    /// The backend never fails on an open session.
    pub open spec fn reliable(&self) -> bool {
        self.backend().reliable()
    }

    /// Opens a transaction on `backend`, for writing if `write` says so. It
    /// sees what was last committed.
    pub fn open(backend: B, write: bool) -> (tx: Self)
        ensures
            tx.reliable() == backend.reliable(),
            !tx.state().closed,
            tx.state().writable == write,
            tx.state().data == tx.state().committed,
            backend.reliable() ==> tx.state() == backend.state().begun(write),
    {
        let mut backend = backend;
        backend.begin(write);
        Transaction { backend }
    }

    /// Gives the backend back, to open the next transaction on.
    pub fn into_backend(self) -> (backend: B)
        ensures
            backend == self.backend(),
    {
        self.backend
    }

    /// Says whether the transaction was committed or cancelled.
    pub fn closed(&self) -> (r: bool)
        ensures
            r == self.state().closed,
    {
        self.backend.closed()
    }

    /// Ends the transaction and discards what it wrote.
    pub fn cancel(&mut self) -> (r: Result<(), Error>)
        ensures
            final(self).reliable() == old(self).reliable(),
            final(self).state() == old(self).state().after_cancel(),
            final(self).state().closed,
            r == old(self).state().end_result(),
            old(self).state().closed ==> r == Err::<(), Error>(Error::TxClosed)
                && final(self).state() == old(self).state(),
    {
        if self.backend.closed() {
            return Err(Error::TxClosed);
        }
        self.backend.cancel()
    }

    /// Ends the transaction and applies what it wrote. Where the backend
    /// refuses, the transaction has ended all the same and nothing was
    /// applied.
    pub fn commit(&mut self) -> (r: Result<(), Error>)
        ensures
            final(self).reliable() == old(self).reliable(),
            final(self).state().closed,
            ({
                ||| {
                    &&& final(self).state() == old(self).state().after_commit()
                    &&& r == old(self).state().end_result()
                }
                ||| {
                    &&& !old(self).reliable()
                    &&& !old(self).state().closed
                    &&& final(self).state() == old(self).state().after_failed_commit()
                    &&& r matches Err(e)
                    &&& (e == Error::Conflict || e == Error::BackendUnavailable)
                }
            }),
            old(self).state().closed ==> r == Err::<(), Error>(Error::TxClosed)
                && final(self).state() == old(self).state(),
    {
        if self.backend.closed() {
            return Err(Error::TxClosed);
        }
        self.backend.commit()
    }

    /// Deletes `key`, if it is there.
    pub fn del(&mut self, key: Key) -> (r: Result<(), Error>)
        ensures
            final(self).reliable() == old(self).reliable(),
            ({
                ||| {
                    &&& final(self).state() == old(self).state().after_del(key@)
                    &&& r == old(self).state().write_result()
                }
                ||| unavailable(old(self).reliable(), old(self).state(), final(self).state(), r)
            }),
            old(self).state().closed ==> r == Err::<(), Error>(Error::TxClosed)
                && final(self).state() == old(self).state(),
    {
        if self.backend.closed() {
            return Err(Error::TxClosed);
        }
        self.backend.del(key)
    }

    /// Says whether `key` is there.
    pub fn exi(&mut self, key: Key) -> (r: Result<bool, Error>)
        ensures
            final(self).reliable() == old(self).reliable(),
            final(self).state() == old(self).state(),
            ({
                ||| r == old(self).state().exi(key@)
                ||| unavailable(old(self).reliable(), old(self).state(), final(self).state(), r)
            }),
            old(self).state().closed ==> r == Err::<bool, Error>(Error::TxClosed),
    {
        if self.backend.closed() {
            return Err(Error::TxClosed);
        }
        self.backend.exi(key)
    }

    /// Reads the value under `key`.
    pub fn get(&mut self, key: Key) -> (r: Result<Option<Val>, Error>)
        ensures
            final(self).reliable() == old(self).reliable(),
            final(self).state() == old(self).state(),
            ({
                ||| value_view(r) == old(self).state().get(key@)
                ||| unavailable(old(self).reliable(), old(self).state(), final(self).state(), r)
            }),
            old(self).state().closed ==> (r matches Err(e) && e == Error::TxClosed),
    {
        if self.backend.closed() {
            return Err(Error::TxClosed);
        }
        self.backend.get(key)
    }

    /// Stores `val` under `key`, whether or not `key` is there.
    pub fn set(&mut self, key: Key, val: Val) -> (r: Result<(), Error>)
        ensures
            final(self).reliable() == old(self).reliable(),
            ({
                ||| {
                    &&& final(self).state() == old(self).state().after_set(key@, val@)
                    &&& r == old(self).state().write_result()
                }
                ||| unavailable(old(self).reliable(), old(self).state(), final(self).state(), r)
            }),
            old(self).state().closed ==> r == Err::<(), Error>(Error::TxClosed)
                && final(self).state() == old(self).state(),
    {
        if self.backend.closed() {
            return Err(Error::TxClosed);
        }
        self.backend.set(key, val)
    }

    /// Stores `val` under `key` unless `key` is there; then it refuses with
    /// `Error::KeyAlreadyExists` and the stored value stays.
    pub fn put(&mut self, key: Key, val: Val) -> (r: Result<(), Error>)
        ensures
            final(self).reliable() == old(self).reliable(),
            ({
                ||| {
                    &&& final(self).state() == old(self).state().after_put(key@, val@)
                    &&& r == old(self).state().put_result(key@)
                }
                ||| unavailable(old(self).reliable(), old(self).state(), final(self).state(), r)
            }),
            old(self).state().closed ==> r == Err::<(), Error>(Error::TxClosed)
                && final(self).state() == old(self).state(),
    {
        if self.backend.closed() {
            return Err(Error::TxClosed);
        }
        self.backend.put(key, val)
    }

    /// Reads the pairs whose keys lie from `rng.start`, inclusive, to
    /// `rng.end`, exclusive, in ascending order of their keys: all of them
    /// where `limit` is 0, and else the first `limit`.
    pub fn scan(&mut self, rng: Range<Key>, limit: u32) -> (r: Result<Vec<(Key, Val)>, Error>)
        ensures
            final(self).reliable() == old(self).reliable(),
            final(self).state() == old(self).state(),
            ({
                ||| old(self).state().scan(rng.start@, rng.end@, limit as nat, scan_view(r))
                ||| unavailable(old(self).reliable(), old(self).state(), final(self).state(), r)
            }),
            old(self).state().closed ==> (r matches Err(e) && e == Error::TxClosed),
    {
        if self.backend.closed() {
            return Err(Error::TxClosed);
        }
        self.backend.scan(rng, limit)
    }
}

} // verus!

use std::ops::Range;

use storage_core::err::Error;
use storage_core::kvs::tx::Transaction;
use storage_core::kvs::{Backend, Key, State, Val};

/// A backend that answers every operation on an open session with one
/// fixed failure, and counts what reaches it.
struct Failing {
    closed: bool,
    calls: usize,
    with: Error,
}

impl Failing {
    fn new(with: Error) -> Failing {
        Failing { closed: true, calls: 0, with }
    }

    fn answer<T>(&mut self) -> Result<T, Error> {
        self.calls += 1;
        if self.closed {
            Err(Error::TxClosed)
        } else {
            Err(self.with)
        }
    }
}

impl Backend for Failing {
    fn state(&self) -> State {
        unreachable!()
    }

    fn reliable(&self) -> bool {
        false
    }

    fn begin(&mut self, _write: bool) {
        self.closed = false;
    }

    fn closed(&self) -> bool {
        self.closed
    }

    fn cancel(&mut self) -> Result<(), Error> {
        self.calls += 1;
        if self.closed {
            return Err(Error::TxClosed);
        }
        self.closed = true;
        Ok(())
    }

    fn commit(&mut self) -> Result<(), Error> {
        let r = self.answer();
        self.closed = true;
        r
    }

    fn del(&mut self, _key: Key) -> Result<(), Error> {
        self.answer()
    }

    fn exi(&mut self, _key: Key) -> Result<bool, Error> {
        self.answer()
    }

    fn get(&mut self, _key: Key) -> Result<Option<Val>, Error> {
        self.answer()
    }

    fn set(&mut self, _key: Key, _val: Val) -> Result<(), Error> {
        self.answer()
    }

    fn put(&mut self, _key: Key, _val: Val) -> Result<(), Error> {
        self.answer()
    }

    fn scan(&mut self, _rng: Range<Key>, _limit: u32) -> Result<Vec<(Key, Val)>, Error> {
        self.answer()
    }
}

#[test]
fn what_the_backend_answers_is_handed_back_unchanged() {
    let mut tx = Transaction::open(Failing::new(Error::BackendUnavailable), true);
    assert_eq!(tx.get(vec![1]), Err(Error::BackendUnavailable));
    assert_eq!(tx.set(vec![1], vec![2]), Err(Error::BackendUnavailable));
    assert_eq!(tx.put(vec![1], vec![2]), Err(Error::BackendUnavailable));
    assert_eq!(tx.del(vec![1]), Err(Error::BackendUnavailable));
    assert_eq!(tx.exi(vec![1]), Err(Error::BackendUnavailable));
    assert_eq!(tx.scan(vec![1]..vec![2], 0), Err(Error::BackendUnavailable));
    assert!(!tx.closed());
    assert_eq!(tx.into_backend().calls, 6);
}

#[test]
fn a_failed_commit_leaves_the_transaction_closed() {
    let mut tx = Transaction::open(Failing::new(Error::Conflict), true);
    assert_eq!(tx.commit(), Err(Error::Conflict));
    assert!(tx.closed());
    assert_eq!(tx.commit(), Err(Error::TxClosed));
    assert_eq!(tx.cancel(), Err(Error::TxClosed));
    assert_eq!(tx.get(vec![1]), Err(Error::TxClosed));
}

#[test]
fn a_closed_transaction_does_not_reach_its_backend() {
    let mut tx = Transaction::open(Failing::new(Error::BackendUnavailable), false);
    assert_eq!(tx.cancel(), Ok(()));
    assert_eq!(tx.get(vec![1]), Err(Error::TxClosed));
    assert_eq!(tx.set(vec![1], vec![2]), Err(Error::TxClosed));
    assert_eq!(tx.put(vec![1], vec![2]), Err(Error::TxClosed));
    assert_eq!(tx.del(vec![1]), Err(Error::TxClosed));
    assert_eq!(tx.exi(vec![1]), Err(Error::TxClosed));
    assert_eq!(tx.scan(vec![1]..vec![2], 3), Err(Error::TxClosed));
    assert_eq!(tx.commit(), Err(Error::TxClosed));
    assert_eq!(tx.cancel(), Err(Error::TxClosed));
    assert_eq!(tx.into_backend().calls, 1);
}

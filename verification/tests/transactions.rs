use storage_core::err::Error;
use storage_core::kvs::mem::Memory;
use storage_core::kvs::tx::Transaction;
use storage_core::kvs::Backend;
use storage_core::key::tb;

fn k(s: &str) -> Vec<u8> {
    s.as_bytes().to_vec()
}

fn filled() -> Memory {
    let mut tx = Transaction::open(Memory::new(), true);
    for name in ["d", "b", "a", "e", "c"] {
        assert_eq!(tx.set(k(name), k(&name.to_uppercase())), Ok(()));
    }
    assert_eq!(tx.commit(), Ok(()));
    tx.into_backend()
}

#[test]
fn new_store_is_empty_and_has_no_session() {
    let mut m = Memory::new();
    assert!(m.closed());
    assert_eq!(m.get(k("a")), Err(Error::TxClosed));
    let mut tx = Transaction::open(m, false);
    assert!(!tx.closed());
    assert_eq!(tx.get(k("a")), Ok(None));
    assert_eq!(tx.exi(k("a")), Ok(false));
    assert_eq!(tx.scan(k("")..k("\u{7f}"), 0), Ok(vec![]));
}

#[test]
fn every_operation_is_refused_after_commit() {
    let mut tx = Transaction::open(Memory::new(), true);
    assert_eq!(tx.set(k("a"), k("1")), Ok(()));
    assert!(!tx.closed());
    assert_eq!(tx.commit(), Ok(()));
    assert!(tx.closed());
    assert_eq!(tx.get(k("a")), Err(Error::TxClosed));
    assert_eq!(tx.set(k("a"), k("2")), Err(Error::TxClosed));
    assert_eq!(tx.del(k("a")), Err(Error::TxClosed));
    assert_eq!(tx.put(k("b"), k("2")), Err(Error::TxClosed));
    assert_eq!(tx.exi(k("a")), Err(Error::TxClosed));
    assert_eq!(tx.scan(k("a")..k("z"), 10), Err(Error::TxClosed));
    assert_eq!(tx.commit(), Err(Error::TxClosed));
    assert_eq!(tx.cancel(), Err(Error::TxClosed));
    assert!(tx.closed());
    let mut tx = Transaction::open(tx.into_backend(), false);
    assert_eq!(tx.get(k("a")), Ok(Some(k("1"))));
    assert_eq!(tx.exi(k("b")), Ok(false));
}

#[test]
fn every_operation_is_refused_after_cancel() {
    let mut tx = Transaction::open(Memory::new(), true);
    assert_eq!(tx.cancel(), Ok(()));
    assert!(tx.closed());
    assert_eq!(tx.get(k("a")), Err(Error::TxClosed));
    assert_eq!(tx.set(k("a"), k("2")), Err(Error::TxClosed));
    assert_eq!(tx.del(k("a")), Err(Error::TxClosed));
    assert_eq!(tx.put(k("b"), k("2")), Err(Error::TxClosed));
    assert_eq!(tx.exi(k("a")), Err(Error::TxClosed));
    assert_eq!(tx.scan(k("a")..k("z"), 0), Err(Error::TxClosed));
    assert_eq!(tx.commit(), Err(Error::TxClosed));
    assert_eq!(tx.cancel(), Err(Error::TxClosed));
}

#[test]
fn the_backend_refuses_by_itself_once_the_session_has_ended() {
    let mut m = Memory::new();
    m.begin(true);
    assert_eq!(m.set(k("a"), k("1")), Ok(()));
    assert_eq!(m.cancel(), Ok(()));
    assert!(m.closed());
    assert_eq!(m.get(k("a")), Err(Error::TxClosed));
    assert_eq!(m.set(k("a"), k("1")), Err(Error::TxClosed));
    assert_eq!(m.put(k("a"), k("1")), Err(Error::TxClosed));
    assert_eq!(m.del(k("a")), Err(Error::TxClosed));
    assert_eq!(m.exi(k("a")), Err(Error::TxClosed));
    assert_eq!(m.scan(k("a")..k("b"), 1), Err(Error::TxClosed));
    assert_eq!(m.commit(), Err(Error::TxClosed));
    assert_eq!(m.cancel(), Err(Error::TxClosed));
}

#[test]
fn put_on_a_taken_key_fails_and_keeps_the_value() {
    let mut tx = Transaction::open(Memory::new(), true);
    assert_eq!(tx.put(k("a"), k("1")), Ok(()));
    assert_eq!(tx.put(k("a"), k("2")), Err(Error::KeyAlreadyExists));
    assert_eq!(tx.get(k("a")), Ok(Some(k("1"))));
    assert_eq!(tx.put(k("b"), k("3")), Ok(()));
    assert_eq!(tx.get(k("b")), Ok(Some(k("3"))));
    assert_eq!(tx.scan(k("a")..k("z"), 0), Ok(vec![(k("a"), k("1")), (k("b"), k("3"))]));
}

#[test]
fn set_twice_then_get_gives_the_second_value() {
    let mut tx = Transaction::open(Memory::new(), true);
    assert_eq!(tx.set(k("k"), k("v1")), Ok(()));
    assert_eq!(tx.set(k("k"), k("v2")), Ok(()));
    assert_eq!(tx.get(k("k")), Ok(Some(k("v2"))));
    assert_eq!(tx.exi(k("k")), Ok(true));
    assert_eq!(tx.scan(k("")..k("z"), 0), Ok(vec![(k("k"), k("v2"))]));
}

#[test]
fn del_removes_and_ignores_what_is_absent() {
    let mut tx = Transaction::open(filled(), true);
    assert_eq!(tx.del(k("c")), Ok(()));
    assert_eq!(tx.get(k("c")), Ok(None));
    assert_eq!(tx.exi(k("c")), Ok(false));
    assert_eq!(tx.del(k("c")), Ok(()));
    assert_eq!(tx.del(k("zz")), Ok(()));
    assert_eq!(
        tx.scan(k("a")..k("z"), 0),
        Ok(vec![(k("a"), k("A")), (k("b"), k("B")), (k("d"), k("D")), (k("e"), k("E"))])
    );
}

#[test]
fn scan_is_ascending_bounded_and_within_the_range() {
    let mut tx = Transaction::open(filled(), false);
    assert_eq!(
        tx.scan(k("b")..k("e"), 0),
        Ok(vec![(k("b"), k("B")), (k("c"), k("C")), (k("d"), k("D"))])
    );
    assert_eq!(tx.scan(k("b")..k("e"), 2), Ok(vec![(k("b"), k("B")), (k("c"), k("C"))]));
    assert_eq!(tx.scan(k("b")..k("e"), 1), Ok(vec![(k("b"), k("B"))]));
    assert_eq!(
        tx.scan(k("b")..k("e"), 3),
        Ok(vec![(k("b"), k("B")), (k("c"), k("C")), (k("d"), k("D"))])
    );
    assert_eq!(
        tx.scan(k("b")..k("e"), 100),
        Ok(vec![(k("b"), k("B")), (k("c"), k("C")), (k("d"), k("D"))])
    );
    for limit in 0..8u32 {
        let got = tx.scan(k("a")..k("f"), limit).unwrap();
        if limit > 0 {
            assert!(got.len() <= limit as usize);
        } else {
            assert_eq!(got.len(), 5);
        }
        for w in got.windows(2) {
            assert!(w[0].0 < w[1].0);
        }
        for (key, _) in &got {
            assert!(k("a") <= *key && *key < k("f"));
        }
    }
}

#[test]
fn scan_with_limit_zero_is_unbounded() {
    let mut tx = Transaction::open(filled(), false);
    assert_eq!(tx.scan(k("")..k("zzz"), 0).unwrap().len(), 5);
}

#[test]
fn scan_of_an_empty_or_reversed_range_is_empty() {
    let mut tx = Transaction::open(filled(), false);
    assert_eq!(tx.scan(k("c")..k("c"), 0), Ok(vec![]));
    assert_eq!(tx.scan(k("d")..k("b"), 0), Ok(vec![]));
    assert_eq!(tx.scan(k("aa")..k("ab"), 0), Ok(vec![]));
    assert_eq!(tx.scan(k("f")..k("z"), 0), Ok(vec![]));
    assert_eq!(tx.scan(k("")..k("a"), 0), Ok(vec![]));
}

#[test]
fn scan_takes_the_lower_bound_in_and_leaves_the_upper_bound_out() {
    let mut tx = Transaction::open(filled(), false);
    assert_eq!(tx.scan(k("a")..k("b"), 0), Ok(vec![(k("a"), k("A"))]));
    assert_eq!(tx.scan(k("a")..k("a\u{0}"), 0), Ok(vec![(k("a"), k("A"))]));
    assert_eq!(tx.scan(k("e")..k("ez"), 0), Ok(vec![(k("e"), k("E"))]));
}

#[test]
fn keys_are_kept_in_byte_order_whatever_the_order_of_writes() {
    let mut tx = Transaction::open(Memory::new(), true);
    let keys: Vec<Vec<u8>> =
        vec![vec![0xff], vec![], vec![0x00], vec![0x7f, 0x01], vec![0x7f], vec![0x00, 0x00]];
    for (i, key) in keys.iter().enumerate() {
        assert_eq!(tx.set(key.clone(), vec![i as u8]), Ok(()));
    }
    let got = tx.scan(vec![]..vec![0xff, 0xff], 0).unwrap();
    assert_eq!(
        got,
        vec![
            (vec![], vec![1]),
            (vec![0x00], vec![2]),
            (vec![0x00, 0x00], vec![5]),
            (vec![0x7f], vec![4]),
            (vec![0x7f, 0x01], vec![3]),
            (vec![0xff], vec![0]),
        ]
    );
}

#[test]
fn cancel_discards_what_the_session_wrote() {
    let mut tx = Transaction::open(filled(), true);
    assert_eq!(tx.set(k("a"), k("changed")), Ok(()));
    assert_eq!(tx.del(k("b")), Ok(()));
    assert_eq!(tx.put(k("z"), k("Z")), Ok(()));
    assert_eq!(tx.get(k("a")), Ok(Some(k("changed"))));
    assert_eq!(tx.cancel(), Ok(()));
    let mut tx = Transaction::open(tx.into_backend(), false);
    assert_eq!(tx.get(k("a")), Ok(Some(k("A"))));
    assert_eq!(tx.get(k("b")), Ok(Some(k("B"))));
    assert_eq!(tx.get(k("z")), Ok(None));
    assert_eq!(tx.scan(k("")..k("zz"), 0).unwrap().len(), 5);
}

#[test]
fn commit_applies_what_the_session_wrote() {
    let mut tx = Transaction::open(filled(), true);
    assert_eq!(tx.set(k("a"), k("changed")), Ok(()));
    assert_eq!(tx.del(k("b")), Ok(()));
    assert_eq!(tx.put(k("z"), k("Z")), Ok(()));
    assert_eq!(tx.commit(), Ok(()));
    let mut tx = Transaction::open(tx.into_backend(), false);
    assert_eq!(tx.get(k("a")), Ok(Some(k("changed"))));
    assert_eq!(tx.get(k("b")), Ok(None));
    assert_eq!(tx.get(k("z")), Ok(Some(k("Z"))));
}

#[test]
fn a_session_left_open_is_cancelled_by_the_next() {
    let mut tx = Transaction::open(filled(), true);
    assert_eq!(tx.set(k("a"), k("changed")), Ok(()));
    let mut tx = Transaction::open(tx.into_backend(), false);
    assert_eq!(tx.get(k("a")), Ok(Some(k("A"))));
}

#[test]
fn a_read_only_session_refuses_to_write() {
    let mut tx = Transaction::open(filled(), false);
    assert_eq!(tx.set(k("a"), k("x")), Err(Error::TxReadonly));
    assert_eq!(tx.put(k("q"), k("x")), Err(Error::TxReadonly));
    assert_eq!(tx.put(k("a"), k("x")), Err(Error::TxReadonly));
    assert_eq!(tx.del(k("a")), Err(Error::TxReadonly));
    assert_eq!(tx.get(k("a")), Ok(Some(k("A"))));
    assert_eq!(tx.get(k("q")), Ok(None));
    assert_eq!(tx.commit(), Ok(()));
    assert_eq!(tx.set(k("a"), k("x")), Err(Error::TxClosed));
}

#[test]
fn values_may_be_empty_and_keys_too() {
    let mut tx = Transaction::open(Memory::new(), true);
    assert_eq!(tx.set(vec![], vec![]), Ok(()));
    assert_eq!(tx.get(vec![]), Ok(Some(vec![])));
    assert_eq!(tx.exi(vec![]), Ok(true));
    assert_eq!(tx.put(vec![], vec![1]), Err(Error::KeyAlreadyExists));
}

#[test]
fn table_bounds_scan_the_tables_of_one_database() {
    let mut tx = Transaction::open(Memory::new(), true);
    for (ns, db, name) in [
        ("ns1", "db1", "users"),
        ("ns1", "db1", "accounts"),
        ("ns1", "db2", "users"),
        ("ns2", "db1", "users"),
        ("ns1", "db", "users"),
        ("ns1", "db10", "users"),
    ] {
        assert_eq!(tx.put(tb::new(ns, db, name).encode(), k(name)), Ok(()));
    }
    let got = tx.scan(tb::prefix("ns1", "db1")..tb::suffix("ns1", "db1"), 0).unwrap();
    assert_eq!(
        got,
        vec![
            (tb::new("ns1", "db1", "accounts").encode(), k("accounts")),
            (tb::new("ns1", "db1", "users").encode(), k("users")),
        ]
    );
}

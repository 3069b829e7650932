//! What holds of every session, whatever backend it runs on.

use vstd::prelude::*;
use crate::err::Error;
use crate::key::order::{
    in_range, lemma_lex_lt_irreflexive, lemma_lex_lt_transitive, lemma_lex_total, lex_lt,
};
use crate::kvs::{is_scan, State};

verus! {

/// A commit and a cancel each end the session.
pub proof fn commit_and_cancel_close(s: State)
    ensures
        s.after_commit().closed,
        s.after_cancel().closed,
        s.after_failed_commit().closed,
{
}

/// Once the session has ended, every operation is refused with
/// `Error::TxClosed` and changes nothing.
pub proof fn closed_session_refuses(
    s: State,
    key: Seq<u8>,
    val: Seq<u8>,
    lo: Seq<u8>,
    hi: Seq<u8>,
    limit: nat,
    pairs: Result<Seq<(Seq<u8>, Seq<u8>)>, Error>,
)
    requires
        s.closed,
    ensures
        s.get(key) == Err::<Option<Seq<u8>>, Error>(Error::TxClosed),
        s.exi(key) == Err::<bool, Error>(Error::TxClosed),
        s.write_result() == Err::<(), Error>(Error::TxClosed),
        s.put_result(key) == Err::<(), Error>(Error::TxClosed),
        s.end_result() == Err::<(), Error>(Error::TxClosed),
        s.scan(lo, hi, limit, pairs) <==> pairs == Err::<Seq<(Seq<u8>, Seq<u8>)>, Error>(
            Error::TxClosed,
        ),
        s.after_set(key, val) == s,
        s.after_put(key, val) == s,
        s.after_del(key) == s,
        s.after_commit() == s,
        s.after_cancel() == s,
{
}

/// An insert under a key that is taken is refused with
/// `Error::KeyAlreadyExists` and changes nothing: a read that follows gives
/// the value that was there.
pub proof fn insert_keeps_what_is_there(s: State, key: Seq<u8>, val: Seq<u8>)
    requires
        !s.closed,
        s.writable,
        s.data.contains_key(key),
    ensures
        s.put_result(key) == Err::<(), Error>(Error::KeyAlreadyExists),
        s.after_put(key, val) == s,
        s.after_put(key, val).get(key) == Ok::<Option<Seq<u8>>, Error>(Some(s.data[key])),
{
}

/// An insert under a key that is free stores the value.
pub proof fn insert_stores_under_free_key(s: State, key: Seq<u8>, val: Seq<u8>)
    requires
        !s.closed,
        s.writable,
        !s.data.contains_key(key),
    ensures
        s.put_result(key) == Ok::<(), Error>(()),
        s.after_put(key, val).get(key) == Ok::<Option<Seq<u8>>, Error>(Some(val)),
{
}

/// A read gives what was last stored under the key in the same session.
pub proof fn read_gives_last_write(s: State, key: Seq<u8>, v1: Seq<u8>, v2: Seq<u8>)
    requires
        !s.closed,
        s.writable,
    ensures
        s.write_result() == Ok::<(), Error>(()),
        s.after_set(key, v1).write_result() == Ok::<(), Error>(()),
        s.after_set(key, v1).after_set(key, v2).get(key) == Ok::<Option<Seq<u8>>, Error>(
            Some(v2),
        ),
{
}

/// A key that was deleted is gone, in the same session.
pub proof fn delete_removes(s: State, key: Seq<u8>)
    requires
        !s.closed,
        s.writable,
    ensures
        s.after_del(key).get(key) == Ok::<Option<Seq<u8>>, Error>(None),
        s.after_del(key).exi(key) == Ok::<bool, Error>(false),
{
}

/// A cancel discards what the session wrote and a commit applies it: the
/// next session sees what was committed.
pub proof fn next_session_sees_what_was_committed(s: State, write: bool)
    requires
        !s.closed,
    ensures
        s.after_cancel().begun(write).data == s.committed,
        s.after_commit().begun(write).data == s.data,
{
}

/// A scan under a limit other than 0 gives at most that many pairs, in
/// strictly ascending order of their keys, each key within the range and
/// each pair one of the store.
pub proof fn scan_is_bounded(
    data: Map<Seq<u8>, Seq<u8>>,
    lo: Seq<u8>,
    hi: Seq<u8>,
    limit: nat,
    pairs: Seq<(Seq<u8>, Seq<u8>)>,
)
    requires
        is_scan(data, lo, hi, limit, pairs),
    ensures
        limit > 0 ==> pairs.len() <= limit,
        forall|i: int, j: int| 0 <= i < j < pairs.len() ==> lex_lt(pairs[i].0, pairs[j].0),
        forall|i: int| 0 <= i < pairs.len() ==> in_range(#[trigger] pairs[i].0, lo, hi),
        forall|i: int|
            0 <= i < pairs.len() ==> data.contains_key(#[trigger] pairs[i].0) && data[pairs[i].0]
                == pairs[i].1,
{
}

/// Two scans of one store over one range under one limit agree on their
/// first pairs.
proof fn lemma_scans_agree_at(
    data: Map<Seq<u8>, Seq<u8>>,
    lo: Seq<u8>,
    hi: Seq<u8>,
    limit: nat,
    p: Seq<(Seq<u8>, Seq<u8>)>,
    q: Seq<(Seq<u8>, Seq<u8>)>,
    i: int,
)
    requires
        is_scan(data, lo, hi, limit, p),
        is_scan(data, lo, hi, limit, q),
        0 <= i < p.len(),
        i < q.len(),
    ensures
        p[i] == q[i],
    decreases i,
{
    assert forall|j: int| 0 <= j < i implies p[j] == q[j] by {
        lemma_scans_agree_at(data, lo, hi, limit, p, q, j);
    }
    lemma_comes_no_sooner(data, lo, hi, limit, p, q, i);
    lemma_comes_no_sooner(data, lo, hi, limit, q, p, i);
    lemma_lex_total(p[i].0, q[i].0);
    assert(in_range(p[i].0, lo, hi));
    assert(in_range(q[i].0, lo, hi));
}

/// Where two scans agree before `i`, the key that the first holds at `i` is
/// not smaller than the key that the second holds there.
proof fn lemma_comes_no_sooner(
    data: Map<Seq<u8>, Seq<u8>>,
    lo: Seq<u8>,
    hi: Seq<u8>,
    limit: nat,
    p: Seq<(Seq<u8>, Seq<u8>)>,
    q: Seq<(Seq<u8>, Seq<u8>)>,
    i: int,
)
    requires
        is_scan(data, lo, hi, limit, p),
        is_scan(data, lo, hi, limit, q),
        0 <= i < p.len(),
        i < q.len(),
        forall|j: int| 0 <= j < i ==> p[j] == q[j],
    ensures
        !lex_lt(p[i].0, q[i].0),
{
    let k = p[i].0;
    if lex_lt(k, q[i].0) {
        lemma_lex_lt_irreflexive(k);
        assert(in_range(k, lo, hi));
        assert(data.contains_key(k));
        if exists|t: int| 0 <= t < q.len() && q[t].0 == k {
            let t = choose|t: int| 0 <= t < q.len() && q[t].0 == k;
            if t < i {
                assert(lex_lt(p[t].0, p[i].0));
            } else if t > i {
                assert(lex_lt(q[i].0, q[t].0));
                lemma_lex_lt_transitive(k, q[i].0, k);
            }
        } else {
            let last = q.len() - 1;
            assert(lex_lt(q[last].0, k));
            if i < last {
                assert(lex_lt(q[i].0, q[last].0));
                lemma_lex_lt_transitive(q[i].0, q[last].0, k);
            }
            lemma_lex_lt_transitive(k, q[i].0, k);
        }
    }
}

/// A scan that agrees with another on all its pairs is not the shorter one.
proof fn lemma_scan_is_no_shorter(
    data: Map<Seq<u8>, Seq<u8>>,
    lo: Seq<u8>,
    hi: Seq<u8>,
    limit: nat,
    p: Seq<(Seq<u8>, Seq<u8>)>,
    q: Seq<(Seq<u8>, Seq<u8>)>,
)
    requires
        is_scan(data, lo, hi, limit, p),
        is_scan(data, lo, hi, limit, q),
        forall|j: int| 0 <= j < p.len() && j < q.len() ==> p[j] == q[j],
    ensures
        q.len() <= p.len(),
{
    if p.len() < q.len() {
        let n = p.len() as int;
        let k = q[n].0;
        lemma_lex_lt_irreflexive(k);
        assert(in_range(k, lo, hi));
        assert(data.contains_key(k));
        if exists|t: int| 0 <= t < p.len() && p[t].0 == k {
            let t = choose|t: int| 0 <= t < p.len() && p[t].0 == k;
            assert(p[t] == q[t]);
            assert(lex_lt(q[t].0, q[n].0));
        }
    }
}

/// What a scan gives is determined by the store, the range and the limit.
pub proof fn scan_is_determined(
    data: Map<Seq<u8>, Seq<u8>>,
    lo: Seq<u8>,
    hi: Seq<u8>,
    limit: nat,
    p: Seq<(Seq<u8>, Seq<u8>)>,
    q: Seq<(Seq<u8>, Seq<u8>)>,
)
    requires
        is_scan(data, lo, hi, limit, p),
        is_scan(data, lo, hi, limit, q),
    ensures
        p == q,
{
    assert forall|j: int| 0 <= j < p.len() && j < q.len() implies p[j] == q[j] by {
        lemma_scans_agree_at(data, lo, hi, limit, p, q, j);
    }
    lemma_scan_is_no_shorter(data, lo, hi, limit, p, q);
    lemma_scan_is_no_shorter(data, lo, hi, limit, q, p);
    assert(p =~= q);
}

} // verus!

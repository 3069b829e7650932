//! The in-memory backend: one ordered list of pairs for what is committed,
//! and a working copy of it for the session.

use vstd::prelude::*;
use vstd::slice::slice_to_vec;
use std::ops::Range;
use crate::err::Error;
use crate::key::order::{
    bytes_lt, in_range, lemma_lex_lt_irreflexive, lemma_lex_lt_transitive, lemma_lex_total,
    lex_lt,
};
use crate::kvs::{ascending, is_scan, pairs_view, Backend, Key, State, Val};

verus! {

/// The map that an ascending list of pairs stands for.
spec fn to_map(pairs: Seq<(Seq<u8>, Seq<u8>)>) -> Map<Seq<u8>, Seq<u8>> {
    Map::new(
        |k: Seq<u8>| exists|i: int| 0 <= i < pairs.len() && pairs[i].0 == k,
        |k: Seq<u8>| pairs[choose|i: int| 0 <= i < pairs.len() && pairs[i].0 == k].1,
    )
}

/// `at` parts `pairs` by `key`: the keys before it are smaller than `key`,
/// those from it on are not.
spec fn parts_at(pairs: Seq<(Seq<u8>, Seq<u8>)>, key: Seq<u8>, at: int) -> bool {
    &&& 0 <= at <= pairs.len()
    &&& forall|j: int| 0 <= j < at ==> lex_lt(#[trigger] pairs[j].0, key)
    &&& forall|j: int| at <= j < pairs.len() ==> !lex_lt(#[trigger] pairs[j].0, key)
}

/// `key` stands at `at` in `pairs`.
spec fn found_at(pairs: Seq<(Seq<u8>, Seq<u8>)>, key: Seq<u8>, at: int) -> bool {
    0 <= at < pairs.len() && pairs[at].0 == key
}

/// Each pair of an ascending list is in its map.
proof fn lemma_to_map_holds(pairs: Seq<(Seq<u8>, Seq<u8>)>, i: int)
    requires
        ascending(pairs),
        0 <= i < pairs.len(),
    ensures
        to_map(pairs).contains_key(pairs[i].0),
        to_map(pairs)[pairs[i].0] == pairs[i].1,
{
    let k = pairs[i].0;
    let j = choose|j: int| 0 <= j < pairs.len() && pairs[j].0 == k;
    lemma_lex_lt_irreflexive(k);
    if j < i {
        assert(lex_lt(pairs[j].0, pairs[i].0));
    } else if i < j {
        assert(lex_lt(pairs[i].0, pairs[j].0));
    }
}

/// Where `at` parts an ascending list by `key`, the map holds `key` exactly
/// if it stands at `at`.
proof fn lemma_parts_at(pairs: Seq<(Seq<u8>, Seq<u8>)>, key: Seq<u8>, at: int)
    requires
        ascending(pairs),
        parts_at(pairs, key, at),
    ensures
        to_map(pairs).contains_key(key) <==> found_at(pairs, key, at),
        found_at(pairs, key, at) ==> to_map(pairs)[key] == pairs[at].1,
        !found_at(pairs, key, at) ==> forall|j: int|
            at <= j < pairs.len() ==> lex_lt(key, #[trigger] pairs[j].0),
{
    lemma_lex_lt_irreflexive(key);
    if found_at(pairs, key, at) {
        lemma_to_map_holds(pairs, at);
    } else {
        assert forall|j: int| at <= j < pairs.len() implies lex_lt(key, #[trigger] pairs[j].0) by {
            lemma_lex_total(key, pairs[j].0);
            if pairs[j].0 == key {
                if j > at {
                    assert(lex_lt(pairs[at].0, pairs[j].0));
                }
            }
        }
        if to_map(pairs).contains_key(key) {
            let j = choose|j: int| 0 <= j < pairs.len() && pairs[j].0 == key;
            if j < at {
                assert(lex_lt(pairs[j].0, key));
            } else {
                assert(lex_lt(key, pairs[j].0));
            }
        }
    }
}

/// Putting a pair with a new key where its key belongs keeps the list
/// ascending and adds the pair to the map.
proof fn lemma_insert(pairs: Seq<(Seq<u8>, Seq<u8>)>, at: int, key: Seq<u8>, val: Seq<u8>)
    requires
        ascending(pairs),
        parts_at(pairs, key, at),
        !found_at(pairs, key, at),
    ensures
        ascending(pairs.insert(at, (key, val))),
        to_map(pairs.insert(at, (key, val))) == to_map(pairs).insert(key, val),
{
    let next = pairs.insert(at, (key, val));
    lemma_parts_at(pairs, key, at);
    assert forall|i: int, j: int| 0 <= i < j < next.len() implies lex_lt(
        next[i].0,
        next[j].0,
    ) by {
        if j < at {
            assert(lex_lt(pairs[i].0, pairs[j].0));
        } else if j == at {
            assert(lex_lt(pairs[i].0, key));
        } else if i == at {
            assert(lex_lt(key, pairs[j - 1].0));
        } else if i > at {
            assert(lex_lt(pairs[i - 1].0, pairs[j - 1].0));
        } else {
            assert(lex_lt(pairs[i].0, pairs[j - 1].0));
        }
    }
    assert forall|k: Seq<u8>| #[trigger]
        to_map(next).contains_key(k) == to_map(pairs).insert(key, val).contains_key(k) by {
        if to_map(next).contains_key(k) {
            let i = choose|i: int| 0 <= i < next.len() && next[i].0 == k;
            if i < at {
                assert(pairs[i].0 == k);
            } else if i > at {
                assert(pairs[i - 1].0 == k);
            }
        }
        if to_map(pairs).contains_key(k) {
            let i = choose|i: int| 0 <= i < pairs.len() && pairs[i].0 == k;
            if i < at {
                assert(next[i].0 == k);
            } else {
                assert(next[i + 1].0 == k);
            }
        }
        if k == key {
            assert(next[at].0 == k);
        }
    }
    assert forall|k: Seq<u8>| #[trigger]
        to_map(next).contains_key(k) implies to_map(next)[k] == to_map(pairs).insert(
        key,
        val,
    )[k] by {
        let i = choose|i: int| 0 <= i < next.len() && next[i].0 == k;
        lemma_to_map_holds(next, i);
        if i < at {
            lemma_to_map_holds(pairs, i);
        } else if i > at {
            lemma_to_map_holds(pairs, i - 1);
        }
    }
    assert(to_map(next) =~= to_map(pairs).insert(key, val));
}

/// Putting a new value where a key stands keeps the list ascending and
/// changes the value of that key in the map.
proof fn lemma_update(pairs: Seq<(Seq<u8>, Seq<u8>)>, at: int, val: Seq<u8>)
    requires
        ascending(pairs),
        0 <= at < pairs.len(),
    ensures
        ascending(pairs.update(at, (pairs[at].0, val))),
        to_map(pairs.update(at, (pairs[at].0, val))) == to_map(pairs).insert(pairs[at].0, val),
{
    let key = pairs[at].0;
    let next = pairs.update(at, (key, val));
    assert forall|i: int, j: int| 0 <= i < j < next.len() implies lex_lt(
        next[i].0,
        next[j].0,
    ) by {
        assert(lex_lt(pairs[i].0, pairs[j].0));
    }
    assert forall|k: Seq<u8>| #[trigger]
        to_map(next).contains_key(k) == to_map(pairs).insert(key, val).contains_key(k) by {
        if to_map(next).contains_key(k) {
            let i = choose|i: int| 0 <= i < next.len() && next[i].0 == k;
            assert(pairs[i].0 == k);
        }
        if to_map(pairs).contains_key(k) {
            let i = choose|i: int| 0 <= i < pairs.len() && pairs[i].0 == k;
            assert(next[i].0 == k);
        }
        if k == key {
            assert(next[at].0 == k);
        }
    }
    assert forall|k: Seq<u8>| #[trigger]
        to_map(next).contains_key(k) implies to_map(next)[k] == to_map(pairs).insert(
        key,
        val,
    )[k] by {
        let i = choose|i: int| 0 <= i < next.len() && next[i].0 == k;
        lemma_to_map_holds(next, i);
        lemma_to_map_holds(pairs, i);
        lemma_lex_lt_irreflexive(key);
        if i < at {
            assert(lex_lt(pairs[i].0, pairs[at].0));
        } else if i > at {
            assert(lex_lt(pairs[at].0, pairs[i].0));
        }
    }
    assert(to_map(next) =~= to_map(pairs).insert(key, val));
}

/// Taking a pair out keeps the list ascending and takes its key out of the
/// map.
proof fn lemma_remove(pairs: Seq<(Seq<u8>, Seq<u8>)>, at: int)
    requires
        ascending(pairs),
        0 <= at < pairs.len(),
    ensures
        ascending(pairs.remove(at)),
        to_map(pairs.remove(at)) == to_map(pairs).remove(pairs[at].0),
{
    let key = pairs[at].0;
    let next = pairs.remove(at);
    lemma_lex_lt_irreflexive(key);
    assert forall|i: int, j: int| 0 <= i < j < next.len() implies lex_lt(
        next[i].0,
        next[j].0,
    ) by {
        let a = if i < at { i } else { i + 1 };
        let b = if j < at { j } else { j + 1 };
        assert(lex_lt(pairs[a].0, pairs[b].0));
    }
    assert forall|k: Seq<u8>| #[trigger]
        to_map(next).contains_key(k) == to_map(pairs).remove(key).contains_key(k) by {
        if to_map(next).contains_key(k) {
            let i = choose|i: int| 0 <= i < next.len() && next[i].0 == k;
            let a = if i < at { i } else { i + 1 };
            assert(pairs[a].0 == k);
            if a < at {
                assert(lex_lt(pairs[a].0, pairs[at].0));
            } else {
                assert(lex_lt(pairs[at].0, pairs[a].0));
            }
        }
        if to_map(pairs).contains_key(k) && k != key {
            let i = choose|i: int| 0 <= i < pairs.len() && pairs[i].0 == k;
            if i < at {
                assert(next[i].0 == k);
            } else {
                assert(next[i - 1].0 == k);
            }
        }
    }
    assert forall|k: Seq<u8>| #[trigger]
        to_map(next).contains_key(k) implies to_map(next)[k] == to_map(pairs).remove(key)[k] by {
        let i = choose|i: int| 0 <= i < next.len() && next[i].0 == k;
        lemma_to_map_holds(next, i);
        lemma_to_map_holds(pairs, if i < at { i } else { i + 1 });
    }
    assert(to_map(next) =~= to_map(pairs).remove(key));
}

/// A copy of `bytes`.
fn copy_bytes(bytes: &Vec<u8>) -> (r: Vec<u8>)
    ensures
        r@ == bytes@,
{
    slice_to_vec(bytes.as_slice())
}

/// A copy of `pairs`.
fn copy_pairs(pairs: &Vec<(Key, Val)>) -> (r: Vec<(Key, Val)>)
    ensures
        pairs_view(r@) == pairs_view(pairs@),
{
    let mut r: Vec<(Key, Val)> = Vec::new();
    let mut i: usize = 0;
    while i < pairs.len()
        invariant
            0 <= i <= pairs.len(),
            r.len() == i,
            forall|j: int| 0 <= j < i ==> r@[j].0@ == pairs@[j].0@ && r@[j].1@ == pairs@[j].1@,
        decreases pairs.len() - i,
    {
        let k = copy_bytes(&pairs[i].0);
        let v = copy_bytes(&pairs[i].1);
        r.push((k, v));
        i += 1;
    }
    assert(pairs_view(r@) =~= pairs_view(pairs@));
    r
}

/// Finds where `key` stands in `pairs`, or where it would have to go.
fn lower_bound(pairs: &Vec<(Key, Val)>, key: &[u8]) -> (at: usize)
    requires
        ascending(pairs_view(pairs@)),
    ensures
        parts_at(pairs_view(pairs@), key@, at as int),
{
    let ghost view = pairs_view(pairs@);
    let mut lo: usize = 0;
    let mut hi: usize = pairs.len();
    while lo < hi
        invariant
            view == pairs_view(pairs@),
            ascending(view),
            0 <= lo <= hi <= pairs.len(),
            forall|j: int| 0 <= j < lo ==> lex_lt(#[trigger] view[j].0, key@),
            forall|j: int| hi <= j < view.len() ==> !lex_lt(#[trigger] view[j].0, key@),
        decreases hi - lo,
    {
        let mid = lo + (hi - lo) / 2;
        if bytes_lt(pairs[mid].0.as_slice(), key) {
            proof {
                assert(lex_lt(view[mid as int].0, key@));
                assert forall|j: int| 0 <= j < mid + 1 implies lex_lt(
                    #[trigger] view[j].0,
                    key@,
                ) by {
                    if j < mid {
                        assert(lex_lt(view[j].0, view[mid as int].0));
                        lemma_lex_lt_transitive(view[j].0, view[mid as int].0, key@);
                    }
                }
            }
            lo = mid + 1;
        } else {
            proof {
                assert(!lex_lt(view[mid as int].0, key@));
                assert forall|j: int| mid <= j < view.len() implies !lex_lt(
                    #[trigger] view[j].0,
                    key@,
                ) by {
                    if j > mid && lex_lt(view[j].0, key@) {
                        assert(lex_lt(view[mid as int].0, view[j].0));
                        lemma_lex_lt_transitive(view[mid as int].0, view[j].0, key@);
                    }
                }
            }
            hi = mid;
        }
    }
    lo as usize
}

/// Says whether `key` stands at `at` in `pairs`, where `at` parts `pairs`
/// by `key`.
fn stands_at(pairs: &Vec<(Key, Val)>, key: &[u8], at: usize) -> (r: bool)
    requires
        ascending(pairs_view(pairs@)),
        parts_at(pairs_view(pairs@), key@, at as int),
    ensures
        r == found_at(pairs_view(pairs@), key@, at as int),
        r == to_map(pairs_view(pairs@)).contains_key(key@),
        r ==> to_map(pairs_view(pairs@))[key@] == pairs@[at as int].1@,
{
    proof {
        lemma_parts_at(pairs_view(pairs@), key@, at as int);
    }
    if at < pairs.len() {
        let r = !bytes_lt(key, pairs[at].0.as_slice());
        proof {
            lemma_lex_total(key@, pairs@[at as int].0@);
            lemma_lex_lt_irreflexive(key@);
        }
        r
    } else {
        false
    }
}

/// The in-memory backend.
///
/// It keeps what is committed and, while a session that may write is open,
/// the session's working copy, each as a list of pairs in ascending order of
/// their keys. A session that only reads works on what is committed. One
/// session runs on it at a time, so a commit never meets a conflict.
pub struct Memory {
    committed: Vec<(Key, Val)>,
    working: Vec<(Key, Val)>,
    closed: bool,
    writable: bool,
}

impl Memory {
    #[verifier::type_invariant]
    spec fn ordered(&self) -> bool {
        &&& ascending(pairs_view(self.committed@))
        &&& ascending(pairs_view(self.working@))
    }

    /// An empty store with no session open.
    pub fn new() -> (m: Memory)
        ensures
            m.state() == (State {
                committed: Map::empty(),
                data: Map::empty(),
                closed: true,
                writable: false,
            }),
    {
        let m = Memory {
            committed: Vec::new(),
            working: Vec::new(),
            closed: true,
            writable: false,
        };
        assert(to_map(pairs_view(m.committed@)) =~= Map::empty());
        m
    }

    /// Hands out the working copy to be changed, and leaves an empty one
    /// until the changed copy is put back.
    fn take_working(&mut self) -> (work: Vec<(Key, Val)>)
        ensures
            work == old(self).working,
            final(self).committed == old(self).committed,
            final(self).closed == old(self).closed,
            final(self).writable == old(self).writable,
    {
        proof {
            use_type_invariant(&*self);
        }
        let mut work: Vec<(Key, Val)> = Vec::new();
        core::mem::swap(&mut self.working, &mut work);
        work
    }

    /// The list that the open session reads.
    fn visible(&self) -> (list: &Vec<(Key, Val)>)
        requires
            !self.closed,
        ensures
            ascending(pairs_view(list@)),
            to_map(pairs_view(list@)) == self.state().data,
    {
        proof {
            use_type_invariant(self);
        }
        if self.writable {
            &self.working
        } else {
            &self.committed
        }
    }
}

impl Backend for Memory {
    closed spec fn state(&self) -> State {
        State {
            committed: to_map(pairs_view(self.committed@)),
            data: if self.closed || !self.writable {
                to_map(pairs_view(self.committed@))
            } else {
                to_map(pairs_view(self.working@))
            },
            closed: self.closed,
            writable: self.writable,
        }
    }

    open spec fn reliable(&self) -> bool {
        true
    }

    fn begin(&mut self, write: bool) {
        proof {
            use_type_invariant(&*self);
        }
        let work = if write {
            copy_pairs(&self.committed)
        } else {
            Vec::new()
        };
        self.working = work;
        self.closed = false;
        self.writable = write;
    }

    fn closed(&self) -> (r: bool) {
        self.closed
    }

    fn cancel(&mut self) -> (r: Result<(), Error>) {
        if self.closed {
            return Err(Error::TxClosed);
        }
        proof {
            use_type_invariant(&*self);
        }
        self.working = Vec::new();
        self.closed = true;
        Ok(())
    }

    fn commit(&mut self) -> (r: Result<(), Error>) {
        if self.closed {
            return Err(Error::TxClosed);
        }
        proof {
            use_type_invariant(&*self);
        }
        if self.writable {
            let work = self.take_working();
            proof {
                use_type_invariant(&*self);
            }
            self.committed = work;
        }
        self.closed = true;
        Ok(())
    }

    fn del(&mut self, key: Key) -> (r: Result<(), Error>) {
        if self.closed {
            return Err(Error::TxClosed);
        }
        if !self.writable {
            return Err(Error::TxReadonly);
        }
        proof {
            use_type_invariant(&*self);
        }
        let ghost pairs = pairs_view(self.working@);
        let at = lower_bound(&self.working, key.as_slice());
        if stands_at(&self.working, key.as_slice(), at) {
            proof {
                lemma_remove(pairs, at as int);
                assert(pairs_view(self.working@.remove(at as int)) =~= pairs.remove(at as int));
            }
            let mut work = self.take_working();
            work.remove(at);
            self.working = work;
        } else {
            assert(to_map(pairs).remove(key@) =~= to_map(pairs));
        }
        Ok(())
    }

    fn exi(&mut self, key: Key) -> (r: Result<bool, Error>) {
        if self.closed {
            return Err(Error::TxClosed);
        }
        let list = self.visible();
        let at = lower_bound(list, key.as_slice());
        Ok(stands_at(list, key.as_slice(), at))
    }

    fn get(&mut self, key: Key) -> (r: Result<Option<Val>, Error>) {
        if self.closed {
            return Err(Error::TxClosed);
        }
        let list = self.visible();
        let at = lower_bound(list, key.as_slice());
        if stands_at(list, key.as_slice(), at) {
            Ok(Some(copy_bytes(&list[at].1)))
        } else {
            Ok(None)
        }
    }

    fn set(&mut self, key: Key, val: Val) -> (r: Result<(), Error>) {
        if self.closed {
            return Err(Error::TxClosed);
        }
        if !self.writable {
            return Err(Error::TxReadonly);
        }
        proof {
            use_type_invariant(&*self);
        }
        let ghost pairs = pairs_view(self.working@);
        let at = lower_bound(&self.working, key.as_slice());
        if stands_at(&self.working, key.as_slice(), at) {
            proof {
                lemma_update(pairs, at as int, val@);
                assert(pairs_view(self.working@.update(at as int, (key, val))) =~= pairs.update(
                    at as int,
                    (key@, val@),
                ));
            }
            let mut work = self.take_working();
            work[at] = (key, val);
            self.working = work;
        } else {
            proof {
                lemma_insert(pairs, at as int, key@, val@);
                assert(pairs_view(self.working@.insert(at as int, (key, val))) =~= pairs.insert(
                    at as int,
                    (key@, val@),
                ));
            }
            let mut work = self.take_working();
            work.insert(at, (key, val));
            self.working = work;
        }
        Ok(())
    }

    fn put(&mut self, key: Key, val: Val) -> (r: Result<(), Error>) {
        if self.closed {
            return Err(Error::TxClosed);
        }
        if !self.writable {
            return Err(Error::TxReadonly);
        }
        proof {
            use_type_invariant(&*self);
        }
        let ghost pairs = pairs_view(self.working@);
        let at = lower_bound(&self.working, key.as_slice());
        if stands_at(&self.working, key.as_slice(), at) {
            return Err(Error::KeyAlreadyExists);
        }
        proof {
            lemma_insert(pairs, at as int, key@, val@);
            assert(pairs_view(self.working@.insert(at as int, (key, val))) =~= pairs.insert(
                at as int,
                (key@, val@),
            ));
        }
        let mut work = self.take_working();
        work.insert(at, (key, val));
        self.working = work;
        Ok(())
    }

    fn scan(&mut self, rng: Range<Key>, limit: u32) -> (r: Result<Vec<(Key, Val)>, Error>) {
        if self.closed {
            return Err(Error::TxClosed);
        }
        let list = self.visible();
        let ghost pairs = pairs_view(list@);
        let ghost lo = rng.start@;
        let ghost hi = rng.end@;
        let from = lower_bound(&list, rng.start.as_slice());
        let mut out: Vec<(Key, Val)> = Vec::new();
        let mut i: usize = from;
        let mut more: bool = true;
        while more
            invariant
                pairs == pairs_view(list@),
                ascending(pairs),
                parts_at(pairs, lo, from as int),
                hi == rng.end@,
                from <= i <= list.len(),
                i - from == out.len(),
                limit > 0 ==> out.len() <= limit,
                forall|t: int| 0 <= t < out.len() ==> pairs_view(out@)[t] == pairs[from + t],
                forall|t: int| from <= t < i ==> lex_lt(#[trigger] pairs[t].0, hi),
                !more ==> {
                    ||| i == list.len()
                    ||| limit > 0 && out.len() == limit
                    ||| !lex_lt(pairs[i as int].0, hi)
                },
            decreases list.len() - i + (if more { 1int } else { 0int }),
        {
            if i >= list.len() {
                more = false;
            } else if limit > 0 && out.len() >= limit as usize {
                more = false;
            } else if !bytes_lt(list[i].0.as_slice(), rng.end.as_slice()) {
                more = false;
            } else {
                let k = copy_bytes(&list[i].0);
                let v = copy_bytes(&list[i].1);
                let ghost prev = out@;
                out.push((k, v));
                proof {
                    let t = out.len() - 1;
                    assert(pairs_view(out@)[t] == pairs[from + t]);
                    assert forall|u: int| 0 <= u < out.len() implies pairs_view(out@)[u]
                        == pairs[from + u] by {
                        if u < t {
                            assert(pairs_view(out@)[u] == pairs_view(prev)[u]);
                        }
                    }
                }
                i += 1;
            }
        }
        proof {
            lemma_scanned(pairs, lo, hi, limit as nat, from as int, i as int, pairs_view(out@));
        }
        Ok(out)
    }
}

/// The pairs of an ascending list from `from` up to `to` are what a scan of
/// its map gives, where `from` parts the list by the lower bound and the
/// scan stopped at `to` for one of its three reasons: the list ended, the
/// limit was reached, or the key at `to` is not below the upper bound.
proof fn lemma_scanned(
    pairs: Seq<(Seq<u8>, Seq<u8>)>,
    lo: Seq<u8>,
    hi: Seq<u8>,
    limit: nat,
    from: int,
    to: int,
    out: Seq<(Seq<u8>, Seq<u8>)>,
)
    requires
        ascending(pairs),
        parts_at(pairs, lo, from),
        from <= to <= pairs.len(),
        out.len() == to - from,
        limit > 0 ==> out.len() <= limit,
        forall|t: int| 0 <= t < out.len() ==> out[t] == pairs[from + t],
        forall|t: int| from <= t < to ==> lex_lt(#[trigger] pairs[t].0, hi),
        to == pairs.len() || (limit > 0 && out.len() == limit) || !lex_lt(pairs[to].0, hi),
    ensures
        is_scan(to_map(pairs), lo, hi, limit, out),
{
    let data = to_map(pairs);
    assert forall|i: int, j: int| 0 <= i < j < out.len() implies lex_lt(out[i].0, out[j].0) by {
        assert(lex_lt(pairs[from + i].0, pairs[from + j].0));
    }
    assert forall|i: int| 0 <= i < out.len() implies {
        &&& in_range(#[trigger] out[i].0, lo, hi)
        &&& data.contains_key(out[i].0)
        &&& data[out[i].0] == out[i].1
    } by {
        lemma_to_map_holds(pairs, from + i);
        lemma_lex_total(lo, pairs[from + i].0);
        assert(!lex_lt(pairs[from + i].0, lo));
        assert(lex_lt(pairs[from + i].0, hi));
    }
    assert forall|k: Seq<u8>|
        #![trigger data.contains_key(k)]
        data.contains_key(k) && in_range(k, lo, hi) implies {
        ||| exists|i: int| 0 <= i < out.len() && out[i].0 == k
        ||| limit > 0 && out.len() == limit && lex_lt(out.last().0, k)
    } by {
        let j = choose|j: int| 0 <= j < pairs.len() && pairs[j].0 == k;
        lemma_lex_total(lo, k);
        if j < from {
            assert(lex_lt(pairs[j].0, lo));
        } else if j < to {
            assert(out[j - from].0 == k);
        } else if limit > 0 && out.len() == limit {
            assert(out.last() == pairs[to - 1]);
            assert(lex_lt(pairs[to - 1].0, pairs[j].0));
        } else {
            assert(to < pairs.len());
            assert(!lex_lt(pairs[to].0, hi));
            if j > to {
                assert(lex_lt(pairs[to].0, pairs[j].0));
                lemma_lex_lt_transitive(pairs[to].0, k, hi);
            }
        }
    }
}

} // verus!

//! The byte-wise lexicographic order of byte strings, by which keys are
//! ordered and ranges are cut.

use vstd::prelude::*;

verus! {

/// `a` and `b` agree on their first `n` bytes.
pub open spec fn agree_upto(a: Seq<u8>, b: Seq<u8>, n: int) -> bool {
    &&& 0 <= n <= a.len()
    &&& n <= b.len()
    &&& forall|j: int| 0 <= j < n ==> a[j] == b[j]
}

/// `a` comes strictly before `b` in byte-wise lexicographic order, and `n` is
/// where this shows: the two agree before `n`, and there `a` ends or holds
/// the smaller byte.
pub open spec fn lt_at(a: Seq<u8>, b: Seq<u8>, n: int) -> bool {
    &&& agree_upto(a, b, n)
    &&& n < b.len()
    &&& n < a.len() ==> a[n] < b[n]
}

/// `a` comes strictly before `b` in byte-wise lexicographic order.
pub open spec fn lex_lt(a: Seq<u8>, b: Seq<u8>) -> bool {
    exists|n: int| lt_at(a, b, n)
}

/// `a` comes before `b` in byte-wise lexicographic order, or equals it.
pub open spec fn lex_le(a: Seq<u8>, b: Seq<u8>) -> bool {
    a == b || lex_lt(a, b)
}

/// `k` lies in the half-open range from `lo`, inclusive, to `hi`, exclusive.
pub open spec fn in_range(k: Seq<u8>, lo: Seq<u8>, hi: Seq<u8>) -> bool {
    lex_le(lo, k) && lex_lt(k, hi)
}

/// No byte string comes before itself.
pub proof fn lemma_lex_lt_irreflexive(a: Seq<u8>)
    ensures
        !lex_lt(a, a),
{
}

/// The byte-wise order is transitive.
pub proof fn lemma_lex_lt_transitive(a: Seq<u8>, b: Seq<u8>, c: Seq<u8>)
    requires
        lex_lt(a, b),
        lex_lt(b, c),
    ensures
        lex_lt(a, c),
{
    let n1 = choose|n: int| lt_at(a, b, n);
    let n2 = choose|n: int| lt_at(b, c, n);
    if n1 <= n2 {
        if n1 < n2 {
            assert(b[n1] == c[n1]);
        }
        assert(lt_at(a, c, n1));
    } else {
        assert(a[n2] == b[n2]);
        assert(lt_at(a, c, n2));
    }
}

/// Two byte strings that agree on their first `n` bytes are equal, or one
/// comes before the other.
proof fn lemma_lex_total_from(a: Seq<u8>, b: Seq<u8>, n: int)
    requires
        agree_upto(a, b, n),
    ensures
        a == b || lex_lt(a, b) || lex_lt(b, a),
    decreases a.len() - n,
{
    if n == a.len() {
        if n == b.len() {
            assert(a =~= b);
        } else {
            assert(lt_at(a, b, n));
        }
    } else if n == b.len() {
        assert(lt_at(b, a, n));
    } else if a[n] < b[n] {
        assert(lt_at(a, b, n));
    } else if b[n] < a[n] {
        assert(lt_at(b, a, n));
    } else {
        lemma_lex_total_from(a, b, n + 1);
    }
}

/// The byte-wise order is total: of two different byte strings one comes
/// before the other, and never both ways.
pub proof fn lemma_lex_total(a: Seq<u8>, b: Seq<u8>)
    ensures
        a == b || lex_lt(a, b) || lex_lt(b, a),
        !(lex_lt(a, b) && lex_lt(b, a)),
        !(a == b && lex_lt(a, b)),
{
    lemma_lex_total_from(a, b, 0);
    if lex_lt(a, b) && lex_lt(b, a) {
        lemma_lex_lt_transitive(a, b, a);
    }
}

/// Two byte strings that start alike are ordered as what follows the common
/// start.
pub proof fn lemma_lex_lt_prepend(p: Seq<u8>, a: Seq<u8>, b: Seq<u8>)
    ensures
        lex_lt(p + a, p + b) <==> lex_lt(a, b),
{
    let m = p.len() as int;
    if lex_lt(a, b) {
        let n = choose|n: int| lt_at(a, b, n);
        assert forall|j: int| 0 <= j < m + n implies (p + a)[j] == (p + b)[j] by {
            if j >= m {
                assert(a[j - m] == b[j - m]);
            }
        }
        assert(lt_at(p + a, p + b, m + n));
    }
    if lex_lt(p + a, p + b) {
        let n = choose|n: int| lt_at(p + a, p + b, n);
        if n < m {
            assert((p + a)[n] == p[n]);
            assert((p + b)[n] == p[n]);
        } else {
            assert forall|j: int| 0 <= j < n - m implies a[j] == b[j] by {
                assert((p + a)[j + m] == (p + b)[j + m]);
            }
            if n - m < a.len() {
                assert((p + a)[n] == a[n - m]);
                assert((p + b)[n] == b[n - m]);
            }
            assert(lt_at(a, b, n - m));
        }
    }
}

/// Compares two byte strings in byte-wise lexicographic order.
pub fn bytes_lt(a: &[u8], b: &[u8]) -> (r: bool)
    ensures
        r == lex_lt(a@, b@),
{
    let mut i: usize = 0;
    while i < a.len() && i < b.len()
        invariant
            agree_upto(a@, b@, i as int),
        decreases a.len() - i,
    {
        if a[i] != b[i] {
            proof {
                if a[i as int] < b[i as int] {
                    assert(lt_at(a@, b@, i as int));
                } else {
                    assert forall|n: int| !lt_at(a@, b@, n) by {
                        if lt_at(a@, b@, n) {
                            if n < i {
                                assert(a@[n] == b@[n]);
                            } else if n > i {
                                assert(a@[i as int] == b@[i as int]);
                            }
                        }
                    }
                }
            }
            return a[i] < b[i];
        }
        i += 1;
    }
    proof {
        if i < b.len() {
            assert(lt_at(a@, b@, i as int));
        } else {
            assert forall|n: int| !lt_at(a@, b@, n) by {}
        }
    }
    i < b.len()
}

} // verus!

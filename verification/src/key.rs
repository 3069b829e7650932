//! The canonical byte form of the key hierarchy and its byte-wise order.
//!
//! Every level appends a fixed sentinel sequence and one text segment, taken
//! as its UTF-8 bytes without escaping:
//!
//! ```text
//! root                 /
//! namespace(ns)        / * ns
//! database(ns, db)     / * ns * db
//! table(ns, db, tb)    / * ns * db ! t b tb
//! ```

use vstd::prelude::*;
use vstd::slice::slice_subrange;
use vstd::utf8::{decode_utf8, encode_utf8, valid_utf8};
use crate::err::DecodeError;

pub mod database;
pub mod namespace;
pub mod order;
pub mod root;
pub mod tb;
pub mod theory;

verus! {

/// `/`, the byte every key starts with.
pub const SLASH: u8 = 0x2f;

/// `*`, which opens a namespace segment and a database segment.
pub const STAR: u8 = 0x2a;

/// `!`, the first byte of the sentinel that opens a table segment.
pub const BANG: u8 = 0x21;

/// `t`, the second byte of the table sentinel.
pub const LOWER_T: u8 = 0x74;

/// `b`, the third byte of the table sentinel.
pub const LOWER_B: u8 = 0x62;

/// The byte that closes the lower bound of a range of children.
pub const LOW: u8 = 0x00;

/// The byte that closes the upper bound of a range of children.
pub const HIGH: u8 = 0xff;

/// The bytes of the root key.
pub open spec fn root_bytes() -> Seq<u8> {
    seq![SLASH]
}

/// The bytes of the key of namespace `ns`, a segment given by its bytes.
pub open spec fn namespace_bytes(ns: Seq<u8>) -> Seq<u8> {
    seq![SLASH, STAR] + ns
}

/// The bytes of the key of database `db` in namespace `ns`.
pub open spec fn database_bytes(ns: Seq<u8>, db: Seq<u8>) -> Seq<u8> {
    namespace_bytes(ns) + seq![STAR] + db
}

/// The sentinel sequence that opens a table segment.
pub open spec fn table_sentinel() -> Seq<u8> {
    seq![BANG, LOWER_T, LOWER_B]
}

/// The bytes of the key of table `tb` in database `db` of namespace `ns`.
pub open spec fn table_bytes(ns: Seq<u8>, db: Seq<u8>, tb: Seq<u8>) -> Seq<u8> {
    database_bytes(ns, db) + table_sentinel() + tb
}

/// The inclusive lower bound of the keys of the tables of one database.
pub open spec fn table_prefix_bytes(ns: Seq<u8>, db: Seq<u8>) -> Seq<u8> {
    database_bytes(ns, db) + table_sentinel() + seq![LOW]
}

/// The exclusive upper bound of the keys of the tables of one database.
pub open spec fn table_suffix_bytes(ns: Seq<u8>, db: Seq<u8>) -> Seq<u8> {
    database_bytes(ns, db) + table_sentinel() + seq![HIGH]
}

/// No byte of `s` is `b`.
pub open spec fn free_of(s: Seq<u8>, b: u8) -> bool {
    forall|i: int| 0 <= i < s.len() ==> s[i] != b
}

/// Where the first `b` stands in `s`; the length of `s` when it holds none.
pub open spec fn first_index(s: Seq<u8>, b: u8) -> int
    decreases s.len(),
{
    if s.len() == 0 || s[0] == b {
        0
    } else {
        1 + first_index(s.drop_first(), b)
    }
}

/// The text that `bytes` spell, if they are valid UTF-8.
pub open spec fn text(bytes: Seq<u8>) -> Option<Seq<char>> {
    if valid_utf8(bytes) {
        Some(decode_utf8(bytes))
    } else {
        None
    }
}

/// The segment that the bytes of a namespace key hold: all that follows the
/// two opening sentinel bytes.
pub open spec fn namespace_segment(v: Seq<u8>) -> Result<Seq<u8>, DecodeError> {
    if v.len() >= 2 && v[0] == SLASH && v[1] == STAR {
        Ok(v.skip(2))
    } else {
        Err(DecodeError::Sentinel)
    }
}

/// The segments that the bytes of a database key hold. The namespace ends
/// before the first `*` behind the opening sentinel; the database is the rest.
pub open spec fn database_segments(v: Seq<u8>) -> Result<(Seq<u8>, Seq<u8>), DecodeError> {
    match namespace_segment(v) {
        Err(e) => Err(e),
        Ok(a) => {
            let i = first_index(a, STAR);
            if i < a.len() {
                Ok((a.take(i), a.skip(i + 1)))
            } else {
                Err(DecodeError::Boundary)
            }
        },
    }
}

/// The segments that the bytes of a table key hold. The database ends before
/// the first `!` behind the namespace, `t` and `b` must follow it, and the
/// table is the rest.
pub open spec fn table_segments(v: Seq<u8>) -> Result<
    (Seq<u8>, Seq<u8>, Seq<u8>),
    DecodeError,
> {
    match database_segments(v) {
        Err(e) => Err(e),
        Ok((ns, b)) => {
            let j = first_index(b, BANG);
            if j < b.len() {
                let c = b.skip(j + 1);
                if c.len() >= 2 && c[0] == LOWER_T && c[1] == LOWER_B {
                    Ok((ns, b.take(j), c.skip(2)))
                } else {
                    Err(DecodeError::Sentinel)
                }
            } else {
                Err(DecodeError::Boundary)
            }
        },
    }
}

/// `first_index` stays within `s`, nothing before it is `b`, and where it
/// falls inside `s` it stands on a `b`.
pub proof fn lemma_first_index(s: Seq<u8>, b: u8)
    ensures
        0 <= first_index(s, b) <= s.len(),
        forall|j: int| 0 <= j < first_index(s, b) ==> s[j] != b,
        first_index(s, b) < s.len() ==> s[first_index(s, b)] == b,
    decreases s.len(),
{
    if s.len() == 0 || s[0] == b {
    } else {
        let t = s.drop_first();
        lemma_first_index(t, b);
        assert forall|j: int| 0 <= j < first_index(s, b) implies s[j] != b by {
            if j > 0 {
                assert(s[j] == t[j - 1]);
            }
        }
    }
}

/// A position with no `b` before it, which stands on a `b` or at the end of
/// `s`, is the one that `first_index` gives.
pub proof fn lemma_first_index_is(s: Seq<u8>, b: u8, i: int)
    requires
        0 <= i <= s.len(),
        forall|j: int| 0 <= j < i ==> s[j] != b,
        i < s.len() ==> s[i] == b,
    ensures
        first_index(s, b) == i,
    decreases s.len(),
{
    if s.len() == 0 || s[0] == b {
    } else {
        let t = s.drop_first();
        assert forall|j: int| 0 <= j < i - 1 implies t[j] != b by {
            assert(t[j] == s[j + 1]);
        }
        lemma_first_index_is(t, b, i - 1);
    }
}

/// Finds the first `b` in `v` at or behind `from`; gives the length of `v`
/// when there is none.
pub(crate) fn find_byte(v: &[u8], from: usize, b: u8) -> (i: usize)
    requires
        from <= v@.len(),
    ensures
        i == from + first_index(v@.skip(from as int), b),
        from <= i <= v@.len(),
{
    let mut i: usize = from;
    while i < v.len() && v[i] != b
        invariant
            from <= i <= v@.len(),
            forall|j: int| from <= j < i ==> v@[j] != b,
        decreases v@.len() - i,
    {
        i += 1;
    }
    proof {
        lemma_first_index_is(v@.skip(from as int), b, i - from);
    }
    i
}

/// Reads `v` as text.
///
/// Rests on `core::str::from_utf8`: it succeeds exactly on valid UTF-8, and
/// the string slice it gives has the bytes it was given.
#[verifier::external_body]
pub(crate) fn text_of<'a>(v: &'a [u8]) -> (r: Option<&'a str>)
    ensures
        r is Some <==> valid_utf8(v@),
        r matches Some(s) ==> encode_utf8(s@) == v@,
{
    core::str::from_utf8(v).ok()
}

/// Reads the bytes of `v` from `from` up to `to` as text.
pub(crate) fn segment_text<'a>(v: &'a [u8], from: usize, to: usize) -> (r: Option<&'a str>)
    requires
        from <= to <= v@.len(),
    ensures
        match text(v@.subrange(from as int, to as int)) {
            Some(t) => r matches Some(s) && s@ == t,
            None => r is None,
        },
{
    let r = text_of(slice_subrange(v, from, to));
    proof {
        if let Some(s) = r {
            vstd::utf8::encode_utf8_decode_utf8(s@);
        }
    }
    r
}

} // verus!

//! The key of a table, and the bounds of the range that holds the keys of
//! all tables of one database.

use vstd::prelude::*;
use vstd::utf8::encode_utf8;
use crate::err::DecodeError;
use crate::key::{
    find_byte, segment_text, table_bytes, table_prefix_bytes, table_segments,
    table_suffix_bytes, text, BANG, HIGH, LOW, LOWER_B, LOWER_T, SLASH, STAR,
};

verus! {

/// The key of a table in a database of a namespace.
#[derive(Clone, Debug, PartialEq, Eq, PartialOrd)]
pub struct Tb<'a> {
    pub ns: &'a str,
    pub db: &'a str,
    pub tb: &'a str,
}

impl<'a> View for Tb<'a> {
    type V = (Seq<char>, Seq<char>, Seq<char>);

    /// The names of the namespace, of the database and of the table.
    open spec fn view(&self) -> (Seq<char>, Seq<char>, Seq<char>) {
        (self.ns@, self.db@, self.tb@)
    }
}

/// The key of table `tb` in database `db` of namespace `ns`.
pub fn new<'a>(ns: &'a str, db: &'a str, tb: &'a str) -> (k: Tb<'a>)
    ensures
        k@ == (ns@, db@, tb@),
{
    Tb::new(ns, db, tb)
}

/// The inclusive lower bound of the keys of the tables of database `db` in
/// namespace `ns`.
pub fn prefix(ns: &str, db: &str) -> (k: Vec<u8>)
    ensures
        k@ == table_prefix_bytes(encode_utf8(ns@), encode_utf8(db@)),
{
    let mut k = crate::key::database::new(ns, db).encode();
    k.push(BANG);
    k.push(LOWER_T);
    k.push(LOWER_B);
    k.push(LOW);
    assert(k@ =~= table_prefix_bytes(encode_utf8(ns@), encode_utf8(db@)));
    k
}

/// The exclusive upper bound of the keys of the tables of database `db` in
/// namespace `ns`.
pub fn suffix(ns: &str, db: &str) -> (k: Vec<u8>)
    ensures
        k@ == table_suffix_bytes(encode_utf8(ns@), encode_utf8(db@)),
{
    let mut k = crate::key::database::new(ns, db).encode();
    k.push(BANG);
    k.push(LOWER_T);
    k.push(LOWER_B);
    k.push(HIGH);
    assert(k@ =~= table_suffix_bytes(encode_utf8(ns@), encode_utf8(db@)));
    k
}

impl<'a> Tb<'a> {
    /// The bytes that `encode` gives for this key.
    pub open spec fn bytes(&self) -> Seq<u8> {
        table_bytes(encode_utf8(self.ns@), encode_utf8(self.db@), encode_utf8(self.tb@))
    }

    /// What `decode` makes of `v`: the names it holds, or why it holds none.
    pub open spec fn parse(v: Seq<u8>) -> Result<
        (Seq<char>, Seq<char>, Seq<char>),
        DecodeError,
    > {
        match table_segments(v) {
            Err(e) => Err(e),
            Ok((ns, db, tb)) => match (text(ns), text(db), text(tb)) {
                (Some(ns), Some(db), Some(tb)) => Ok((ns, db, tb)),
                _ => Err(DecodeError::Text),
            },
        }
    }

    /// The key of table `tb` in database `db` of namespace `ns`.
    pub fn new(ns: &'a str, db: &'a str, tb: &'a str) -> (k: Self)
        ensures
            k@ == (ns@, db@, tb@),
    {
        Tb { ns, db, tb }
    }

    /// The canonical bytes of the key.
    pub fn encode(&self) -> (r: Vec<u8>)
        ensures
            r@ == self.bytes(),
    {
        let mut k: Vec<u8> = Vec::new();
        k.push(SLASH);
        k.push(STAR);
        k.extend_from_slice(self.ns.as_bytes());
        k.push(STAR);
        k.extend_from_slice(self.db.as_bytes());
        k.push(BANG);
        k.push(LOWER_T);
        k.push(LOWER_B);
        k.extend_from_slice(self.tb.as_bytes());
        assert(k@ =~= self.bytes());
        k
    }

    /// Reads a table key back from its bytes.
    pub fn decode(v: &'a [u8]) -> (r: Result<Self, DecodeError>)
        ensures
            match Self::parse(v@) {
                Ok(names) => r matches Ok(k) && k@ == names,
                Err(e) => r matches Err(x) && x == e,
            },
    {
        if v.len() < 2 || v[0] != SLASH || v[1] != STAR {
            return Err(DecodeError::Sentinel);
        }
        let i = find_byte(v, 2, STAR);
        if i >= v.len() {
            return Err(DecodeError::Boundary);
        }
        let ghost a = v@.skip(2);
        let ghost b = a.skip(i - 2 + 1);
        proof {
            assert(a.take(i - 2) =~= v@.subrange(2, i as int));
            assert(b =~= v@.skip(i + 1));
        }
        let j = find_byte(v, i + 1, BANG);
        if j >= v.len() {
            return Err(DecodeError::Boundary);
        }
        let ghost c = b.skip(j - (i + 1) + 1);
        proof {
            assert(b.take(j - (i + 1)) =~= v@.subrange(i + 1, j as int));
            assert(c =~= v@.skip(j + 1));
        }
        if v.len() - j < 3 || v[j + 1] != LOWER_T || v[j + 2] != LOWER_B {
            return Err(DecodeError::Sentinel);
        }
        proof {
            assert(c.skip(2) =~= v@.subrange(j + 3, v@.len() as int));
        }
        let ns = segment_text(v, 2, i);
        let db = segment_text(v, i + 1, j);
        let tb = segment_text(v, j + 3, v.len());
        match (ns, db, tb) {
            (Some(ns), Some(db), Some(tb)) => Ok(Tb { ns, db, tb }),
            _ => Err(DecodeError::Text),
        }
    }
}

} // verus!

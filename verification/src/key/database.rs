//! The key of a database.

use vstd::prelude::*;
use vstd::utf8::encode_utf8;
use crate::err::DecodeError;
use crate::key::{
    database_bytes, database_segments, find_byte, segment_text, text, SLASH, STAR,
};

verus! {

/// The key of a database in a namespace.
#[derive(Clone, Debug, PartialEq, Eq, PartialOrd)]
pub struct Db<'a> {
    pub ns: &'a str,
    pub db: &'a str,
}

impl<'a> View for Db<'a> {
    type V = (Seq<char>, Seq<char>);

    /// The names of the namespace and of the database.
    open spec fn view(&self) -> (Seq<char>, Seq<char>) {
        (self.ns@, self.db@)
    }
}

/// The key of database `db` in namespace `ns`.
pub fn new<'a>(ns: &'a str, db: &'a str) -> (k: Db<'a>)
    ensures
        k@ == (ns@, db@),
{
    Db::new(ns, db)
}

impl<'a> Db<'a> {
    /// The bytes that `encode` gives for this key.
    pub open spec fn bytes(&self) -> Seq<u8> {
        database_bytes(encode_utf8(self.ns@), encode_utf8(self.db@))
    }

    /// What `decode` makes of `v`: the names it holds, or why it holds none.
    pub open spec fn parse(v: Seq<u8>) -> Result<(Seq<char>, Seq<char>), DecodeError> {
        match database_segments(v) {
            Err(e) => Err(e),
            Ok((ns, db)) => match (text(ns), text(db)) {
                (Some(ns), Some(db)) => Ok((ns, db)),
                _ => Err(DecodeError::Text),
            },
        }
    }

    /// The key of database `db` in namespace `ns`.
    pub fn new(ns: &'a str, db: &'a str) -> (k: Self)
        ensures
            k@ == (ns@, db@),
    {
        Db { ns, db }
    }

    /// The canonical bytes of the key.
    pub fn encode(&self) -> (r: Vec<u8>)
        ensures
            r@ == self.bytes(),
    {
        let mut k: Vec<u8> = Vec::new();
        k.push(SLASH);
        k.push(STAR);
        k.extend_from_slice(self.ns.as_bytes());
        k.push(STAR);
        k.extend_from_slice(self.db.as_bytes());
        assert(k@ =~= self.bytes());
        k
    }

    /// Reads a database key back from its bytes.
    pub fn decode(v: &'a [u8]) -> (r: Result<Self, DecodeError>)
        ensures
            match Self::parse(v@) {
                Ok(names) => r matches Ok(k) && k@ == names,
                Err(e) => r matches Err(x) && x == e,
            },
    {
        if v.len() < 2 || v[0] != SLASH || v[1] != STAR {
            return Err(DecodeError::Sentinel);
        }
        let i = find_byte(v, 2, STAR);
        if i >= v.len() {
            return Err(DecodeError::Boundary);
        }
        proof {
            let a = v@.skip(2);
            assert(a.take(i - 2) =~= v@.subrange(2, i as int));
            assert(a.skip(i - 2 + 1) =~= v@.subrange(i + 1, v@.len() as int));
        }
        let ns = segment_text(v, 2, i);
        let db = segment_text(v, i + 1, v.len());
        match (ns, db) {
            (Some(ns), Some(db)) => Ok(Db { ns, db }),
            _ => Err(DecodeError::Text),
        }
    }
}

} // verus!

//! The key of a namespace.

use vstd::prelude::*;
use vstd::utf8::encode_utf8;
use crate::err::DecodeError;
use crate::key::{namespace_bytes, namespace_segment, segment_text, text, SLASH, STAR};

verus! {

/// The key of a namespace.
#[derive(Clone, Debug, PartialEq, Eq, PartialOrd)]
pub struct Ns<'a> {
    pub ns: &'a str,
}

impl<'a> View for Ns<'a> {
    type V = Seq<char>;

    /// The name of the namespace.
    open spec fn view(&self) -> Seq<char> {
        self.ns@
    }
}

/// The key of namespace `ns`.
pub fn new<'a>(ns: &'a str) -> (k: Ns<'a>)
    ensures
        k@ == ns@,
{
    Ns::new(ns)
}

impl<'a> Ns<'a> {
    /// The bytes that `encode` gives for this key.
    pub open spec fn bytes(&self) -> Seq<u8> {
        namespace_bytes(encode_utf8(self.ns@))
    }

    /// What `decode` makes of `v`: the name it holds, or why it holds none.
    pub open spec fn parse(v: Seq<u8>) -> Result<Seq<char>, DecodeError> {
        match namespace_segment(v) {
            Err(e) => Err(e),
            Ok(ns) => match text(ns) {
                Some(ns) => Ok(ns),
                None => Err(DecodeError::Text),
            },
        }
    }

    /// The key of namespace `ns`.
    pub fn new(ns: &'a str) -> (k: Self)
        ensures
            k@ == ns@,
    {
        Ns { ns }
    }

    /// The canonical bytes of the key.
    pub fn encode(&self) -> (r: Vec<u8>)
        ensures
            r@ == self.bytes(),
    {
        let mut k: Vec<u8> = Vec::new();
        k.push(SLASH);
        k.push(STAR);
        k.extend_from_slice(self.ns.as_bytes());
        assert(k@ =~= self.bytes());
        k
    }

    /// Reads a namespace key back from its bytes.
    pub fn decode(v: &'a [u8]) -> (r: Result<Self, DecodeError>)
        ensures
            match Self::parse(v@) {
                Ok(ns) => r matches Ok(k) && k@ == ns,
                Err(e) => r matches Err(x) && x == e,
            },
    {
        if v.len() < 2 || v[0] != SLASH || v[1] != STAR {
            return Err(DecodeError::Sentinel);
        }
        assert(v@.skip(2) =~= v@.subrange(2, v@.len() as int));
        match segment_text(v, 2, v.len()) {
            Some(ns) => Ok(Ns { ns }),
            None => Err(DecodeError::Text),
        }
    }
}

} // verus!

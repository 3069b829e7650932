//! The root key, the ancestor of every other key.

use vstd::prelude::*;
use crate::err::DecodeError;
use crate::key::{root_bytes, SLASH};

verus! {

/// The key of the root of the hierarchy.
#[derive(Clone, Copy, Debug, PartialEq, Eq, PartialOrd)]
pub struct Root {}

/// The root key.
pub fn new() -> (k: Root) {
    Root::new()
}

impl Root {
    /// The root key.
    pub fn new() -> (k: Root) {
        Root {  }
    }

    /// The canonical bytes of the key: the single byte `/`.
    pub fn encode(&self) -> (r: Vec<u8>)
        ensures
            r@ == root_bytes(),
    {
        let mut k: Vec<u8> = Vec::new();
        k.push(SLASH);
        k
    }

    /// Reads a root key back from its bytes, which must be exactly `/`.
    pub fn decode(v: &[u8]) -> (r: Result<Root, DecodeError>)
        ensures
            r is Ok <==> v@ == root_bytes(),
            r is Err ==> r == Err::<Root, DecodeError>(DecodeError::Sentinel),
    {
        if v.len() == 1 && v[0] == SLASH {
            assert(v@ =~= root_bytes());
            Ok(Root {  })
        } else {
            Err(DecodeError::Sentinel)
        }
    }
}

} // verus!

//! Local relay identity: a 32-byte address with the same wire shape as the
//! topology `RelayId`.
use vstd::prelude::*;

verus! {

/// A mix relay's stable identifier.
#[derive(Clone, Copy, PartialEq, Eq, Debug)]
pub struct RelayId(pub [u8; 32]);

impl RelayId {
    pub fn as_bytes(&self) -> (r: &[u8; 32])
        ensures
            *r == self.0,
    {
        &self.0
    }

    pub fn from_bytes(bytes: [u8; 32]) -> (r: Self)
        ensures
            r.0 == bytes,
    {
        RelayId(bytes)
    }
}

} // verus!

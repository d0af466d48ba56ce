//! Market identifiers.
//!
//! Market IDs are 32-byte hashes. The engine never interprets them; they only
//! travel through reports, so the type is a plain byte-array wrapper.

use vstd::prelude::*;

verus! {

/// A market identifier: a 32-byte hash.
#[derive(Debug, PartialEq, Eq, Hash, PartialOrd, Clone, Copy)]
pub struct MarketId(pub [u8; 32]);

impl MarketId {
    /// Wrap the first 32 bytes of `data` without validating anything else
    /// about it. The slice must hold at least 32 bytes.
    pub fn new_unchecked(data: &[u8]) -> (r: Self)
        requires
            data@.len() >= 32,
        ensures
            r.0@ == data@.subrange(0, 32),
    {
        let mut buf = [0u8; 32];
        let mut i: usize = 0;
        while i < 32
            invariant
                i <= 32,
                data@.len() >= 32,
                buf@.len() == 32,
                forall|j: int| 0 <= j < i ==> buf@[j] == data@[j],
            decreases 32 - i,
        {
            buf[i] = data[i];
            i = i + 1;
        }
        proof {
            assert(buf@ =~= data@.subrange(0, 32));
        }
        MarketId(buf)
    }
}

} // verus!

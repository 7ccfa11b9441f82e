//! Expiration conditions and the point-in-time reference they are checked
//! against.
//!
//! A condition is either `Never`, `AtHeight(h)` (elapsed once the chain
//! reaches block height `h`), or `AtTime(t)` (elapsed once the block time,
//! in nanoseconds, reaches `t`). Expiration is monotonic: once a condition
//! has elapsed it stays elapsed for every later point in time.

use vstd::prelude::*;

verus! {

/// The point-in-time reference an expiration condition is evaluated against:
/// the current block height and the current block time in nanoseconds.
#[derive(Clone, Copy, PartialEq, Eq, Structural, Debug)]
pub struct BlockInfo {
    pub height: u64,
    pub time: u64,
}

/// When a permission grant stops being valid.
#[derive(Clone, Copy, PartialEq, Eq, Structural, Debug)]
pub enum Expiration {
    /// The grant never expires.
    Never,
    /// The grant expires once the block height reaches the given value.
    AtHeight(u64),
    /// The grant expires once the block time (nanoseconds) reaches the
    /// given value.
    AtTime(u64),
}

impl View for Expiration {
    type V = Expiration;

    open spec fn view(&self) -> Expiration {
        *self
    }
}

/// Whether the condition has elapsed as of the given block.
pub open spec fn spec_is_expired(e: Expiration, block: BlockInfo) -> bool {
    match e {
        Expiration::Never => false,
        Expiration::AtHeight(h) => block.height >= h,
        Expiration::AtTime(t) => block.time >= t,
    }
}

impl Expiration {
    /// Answers whether this condition has elapsed as of `block`.
    pub fn is_expired(&self, block: &BlockInfo) -> (r: bool)
        ensures
            r == spec_is_expired(*self, *block),
    {
        match self {
            Expiration::Never => false,
            Expiration::AtHeight(h) => block.height >= *h,
            Expiration::AtTime(t) => block.time >= *t,
        }
    }
}

/// Expiration is monotonic in the time reference: a condition that has
/// elapsed at some block has also elapsed at every block that is at least
/// as high and at least as late. Once expired, always expired.
pub proof fn lemma_expiration_monotonic(e: Expiration, b1: BlockInfo, b2: BlockInfo)
    requires
        spec_is_expired(e, b1),
        b1.height <= b2.height,
        b1.time <= b2.time,
    ensures
        spec_is_expired(e, b2),
{
}

} // verus!

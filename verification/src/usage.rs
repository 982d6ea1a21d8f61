//! Usage masks: which purposes a registered database may serve.

use vstd::prelude::*;

verus! {

/// The database may be synchronised.
pub const USAGE_SYNC: u32 = 1;

/// The database may serve searches.
pub const USAGE_SEARCH: u32 = 2;

/// The database may serve installs.
pub const USAGE_INSTALL: u32 = 4;

/// The database may serve upgrades.
pub const USAGE_UPGRADE: u32 = 8;

/// Every purpose at once.
pub const USAGE_ALL: u32 = 15;

/// Bitmask of permitted operations for a database.
#[derive(Clone, Copy, Debug, PartialEq, Eq, Structural)]
pub struct Usage {
    /// The raw bits of the mask.
    pub bits: u32,
}

impl Usage {
    /// The raw bits of the mask.
    pub open spec fn spec_bits(&self) -> u32 {
        self.bits
    }

    /// The mask that permits everything; a freshly registered database
    /// starts with it.
    pub fn all() -> (r: Usage)
        ensures
            r.spec_bits() == USAGE_ALL,
    {
        Usage { bits: USAGE_ALL }
    }

    /// The mask with exactly the given bits, if all of them are defined.
    pub fn from_bits(bits: u32) -> (r: Option<Usage>)
        ensures
            bits <= USAGE_ALL ==> r == Some(Usage { bits }),
            bits > USAGE_ALL ==> r is None,
    {
        if bits <= USAGE_ALL {
            Some(Usage { bits })
        } else {
            None
        }
    }

    /// The raw bits of the mask.
    pub fn bits(&self) -> (r: u32)
        ensures
            r == self.spec_bits(),
    {
        self.bits
    }
}

} // verus!

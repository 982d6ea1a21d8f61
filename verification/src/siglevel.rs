//! Signature-verification levels: a bitmask of trust checks enforced for a
//! database or package, with `USE_DEFAULT` standing alone when present.

use vstd::prelude::*;

verus! {

/// Verify package signatures.
pub const SIG_PACKAGE: u32 = 1;

/// Package signatures are optional.
pub const SIG_PACKAGE_OPTIONAL: u32 = 2;

/// Accept packages with marginal trust.
pub const SIG_PACKAGE_MARGINAL_OK: u32 = 4;

/// Accept packages with unknown trust.
pub const SIG_PACKAGE_UNKNOWN_OK: u32 = 8;

/// Verify database signatures.
pub const SIG_DATABASE: u32 = 1024;

/// Database signatures are optional.
pub const SIG_DATABASE_OPTIONAL: u32 = 2048;

/// Accept databases with marginal trust.
pub const SIG_DATABASE_MARGINAL_OK: u32 = 4096;

/// Accept databases with unknown trust.
pub const SIG_DATABASE_UNKNOWN_OK: u32 = 8192;

/// Use the handle's default signature level.
pub const SIG_USE_DEFAULT: u32 = 1073741824;

/// Every defined signature-level bit.
pub const SIG_MASK: u32 = 1073757199;

/// Bitmask of signature-verification options for a database.
#[derive(Clone, Copy, Debug, PartialEq, Eq, Structural)]
pub struct SigLevel {
    /// The raw bits of the mask.
    pub bits: u32,
}

impl SigLevel {
    /// The raw bits of the mask.
    pub open spec fn spec_bits(&self) -> u32 {
        self.bits
    }

    /// A mask is a sane combination when it uses only defined bits and,
    /// if `USE_DEFAULT` is set, sets nothing else.
    pub open spec fn spec_valid(&self) -> bool {
        self.bits & SIG_MASK == self.bits && (self.bits & SIG_USE_DEFAULT == 0 || self.bits
            == SIG_USE_DEFAULT)
    }

    /// The empty mask: no signature checking.
    pub fn none() -> (r: SigLevel)
        ensures
            r.spec_bits() == 0,
            r.spec_valid(),
    {
        proof {
            assert(0u32 & SIG_MASK == 0u32 && 0u32 & SIG_USE_DEFAULT == 0u32) by (bit_vector);
        }
        SigLevel { bits: 0 }
    }

    /// The mask that defers to the handle's default level.
    pub fn use_default() -> (r: SigLevel)
        ensures
            r.spec_bits() == SIG_USE_DEFAULT,
            r.spec_valid(),
    {
        proof {
            assert(1073741824u32 & 1073757199u32 == 1073741824u32) by (bit_vector);
        }
        SigLevel { bits: SIG_USE_DEFAULT }
    }

    /// The mask with exactly the given bits, if all of them are defined.
    pub fn from_bits(bits: u32) -> (r: Option<SigLevel>)
        ensures
            bits & SIG_MASK == bits ==> r == Some(SigLevel { bits }),
            bits & SIG_MASK != bits ==> r is None,
    {
        if bits & SIG_MASK == bits {
            Some(SigLevel { bits })
        } else {
            None
        }
    }

    /// The raw bits of the mask.
    pub fn bits(&self) -> (r: u32)
        ensures
            r == self.spec_bits(),
    {
        self.bits
    }

    /// Whether the mask is a sane combination.
    pub fn is_valid_level(&self) -> (r: bool)
        ensures
            r == self.spec_valid(),
    {
        self.bits & SIG_MASK == self.bits && (self.bits & SIG_USE_DEFAULT == 0 || self.bits
            == SIG_USE_DEFAULT)
    }
}

} // verus!

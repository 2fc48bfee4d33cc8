//! Levels of pins in a 32-bit port register.

use vstd::prelude::*;

verus! {

/// The level of pin `ch`.
pub open spec fn level(bits: u32, ch: u32) -> bool {
    (bits >> ch) & 1 != 0
}

/// The register with pin `ch` at a level, and the other pins as they are.
pub open spec fn with_level(bits: u32, ch: u32, high: bool) -> u32 {
    if high {
        bits | (1u32 << ch)
    } else {
        bits & !(1u32 << ch)
    }
}

/// The register with pin `ch` set to a level.
pub fn gpo(bits: u32, ch: u32, high: bool) -> (r: u32)
    requires
        ch < 32,
    ensures
        r == with_level(bits, ch, high),
{
    if high {
        bits | (1u32 << ch)
    } else {
        bits & !(1u32 << ch)
    }
}

/// The level of pin `ch`.
pub fn gpi(bits: u32, ch: u32) -> (high: bool)
    requires
        ch < 32,
    ensures
        high == level(bits, ch),
{
    (bits >> ch) & 1 != 0
}

/// Setting a pin sets that pin, and no other.
pub proof fn law_set_level(bits: u32, ch: u32, high: bool, other: u32)
    requires
        ch < 32,
        other < 32,
    ensures
        level(with_level(bits, ch, high), other) == if other == ch {
            high
        } else {
            level(bits, other)
        },
{
    assert((((bits | (1u32 << ch)) >> other) & 1 != 0) == (other == ch || (bits >> other) & 1 != 0))
        by (bit_vector)
        requires
            ch < 32,
            other < 32,
    ;
    assert((((bits & !(1u32 << ch)) >> other) & 1 != 0) == (other != ch && (bits >> other) & 1
        != 0)) by (bit_vector)
        requires
            ch < 32,
            other < 32,
    ;
}

} // verus!

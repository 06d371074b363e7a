//! Bit-field access on 32-bit register values, backed by the `bit_field` crate.

use bit_field::BitField;
use vstd::prelude::*;

verus! {

/// Relies on `<u32 as bit_field::BitField>::get_bit`: tests `x & (1 << bit) != 0`;
/// it panics unless `bit < 32`.
#[verifier::external_body]
pub(crate) fn get_bit(x: u32, bit: usize) -> (r: bool)
    requires
        bit < 32,
    ensures
        r == (x & (1u32 << bit) != 0),
{
    x.get_bit(bit)
}

/// Relies on `<u32 as bit_field::BitField>::set_bit`: ORs in `1 << bit` for
/// `true`, ANDs with its complement for `false`; it panics unless `bit < 32`.
#[verifier::external_body]
pub(crate) fn set_bit(x: u32, bit: usize, value: bool) -> (r: u32)
    requires
        bit < 32,
    ensures
        r == (if value {
            x | (1u32 << bit)
        } else {
            x & !(1u32 << bit)
        }),
{
    let mut y = x;
    y.set_bit(bit, value);
    y
}

/// Relies on `<u32 as bit_field::BitField>::get_bits` over `start..end`:
/// shifts the high bits away, then the low ones; it panics unless
/// `start < 32`, `end <= 32` and `start <= end`.
#[verifier::external_body]
pub(crate) fn get_bits(x: u32, start: usize, end: usize) -> (r: u32)
    requires
        start < 32,
        end <= 32,
        start <= end,
    ensures
        r == (if start == end {
            0u32
        } else {
            ((x << (32 - end)) >> (32 - end)) >> start
        }),
{
    x.get_bits(start..end)
}

/// Relies on `<u32 as bit_field::BitField>::set_bits` over `start..end`:
/// clears the bits of the range and ORs in `value << start`; it panics unless
/// the range lies within 32 bits and `value` fits into it.
#[verifier::external_body]
pub(crate) fn set_bits(x: u32, start: usize, end: usize, value: u32) -> (r: u32)
    requires
        start < 32,
        end <= 32,
        start <= end,
        (start == end && value == 0) || (start < end && (value << (32 - (end - start))) >> (32 - (
        end - start)) == value),
    ensures
        r == (if start == end {
            x
        } else {
            (x & !(((!0u32 << (32 - end)) >> (32 - end)) >> start << start)) | (value << start)
        }),
{
    let mut y = x;
    y.set_bits(start..end, value);
    y
}

} // verus!

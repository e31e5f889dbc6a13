//! Little-endian numbers in a byte sequence.

use vstd::prelude::*;
use vstd::slice::slice_subrange;

verus! {

/// The 16-bit number at `at`.
pub open spec fn u16_at(d: Seq<u8>, at: int) -> int {
    d[at] + 0x100 * d[at + 1]
}

/// The 32-bit number at `at`.
pub open spec fn u32_at(d: Seq<u8>, at: int) -> int {
    u16_at(d, at) + 0x1_0000 * u16_at(d, at + 2)
}

/// The 64-bit number at `at`.
pub open spec fn u64_at(d: Seq<u8>, at: int) -> int {
    u32_at(d, at) + 0x1_0000_0000 * u32_at(d, at + 4)
}

/// Whether `n` bytes stand at `at`.
pub open spec fn room(d: Seq<u8>, at: int, n: int) -> bool {
    at + n <= d.len()
}

/// A 16-bit number as a signed one.
pub open spec fn as_i16(v: int) -> int {
    if v >= 0x8000 {
        v - 0x1_0000
    } else {
        v
    }
}

/// Whether `n` bytes stand at `at`.
pub fn has_room(d: &[u8], at: usize, n: usize) -> (r: bool)
    ensures
        r == room(d@, at as int, n as int),
{
    at <= d.len() && n <= d.len() - at
}

/// The 16-bit number at `at`, if it is there.
pub fn u16le(d: &[u8], at: usize) -> (r: Option<u16>)
    ensures
        r is Some <==> room(d@, at as int, 2),
        r is Some ==> r->0 == u16_at(d@, at as int),
{
    if has_room(d, at, 2) {
        Some((d[at] as u16) + 0x100 * (d[at + 1] as u16))
    } else {
        None
    }
}

/// The 32-bit number at `at`, if it is there.
pub fn u32le(d: &[u8], at: usize) -> (r: Option<u32>)
    ensures
        r is Some <==> room(d@, at as int, 4),
        r is Some ==> r->0 == u32_at(d@, at as int),
{
    if has_room(d, at, 4) {
        Some(
            (d[at] as u32) + 0x100 * (d[at + 1] as u32) + 0x1_0000 * (d[at + 2] as u32) + 0x100_0000 * (
            d[at + 3] as u32),
        )
    } else {
        None
    }
}

/// The 64-bit number at `at`, if it is there.
pub fn u64le(d: &[u8], at: usize) -> (r: Option<u64>)
    ensures
        r is Some <==> room(d@, at as int, 8),
        r is Some ==> r->0 == u64_at(d@, at as int),
{
    let n = d.len();
    if at <= n && 8 <= n - at {
        match (u32le(d, at), u32le(d, at + 4)) {
            (Some(low), Some(high)) => Some((low as u64) + 0x1_0000_0000 * (high as u64)),
            _ => None,
        }
    } else {
        None
    }
}

/// A 16-bit number as a signed one.
pub fn to_i16(v: u16) -> (r: i64)
    ensures
        r == as_i16(v as int),
{
    if v >= 0x8000 {
        v as i64 - 0x1_0000
    } else {
        v as i64
    }
}

/// The bytes from `from` up to `to`.
pub fn part(d: &[u8], from: usize, to: usize) -> (r: &[u8])
    requires
        from <= to <= d@.len(),
    ensures
        r@ == d@.subrange(from as int, to as int),
{
    slice_subrange(d, from, to)
}

} // verus!

//! Bounds-checked big- and little-endian integer reads from byte buffers.
//! Each read answers `None` when the bytes are not all inside the buffer,
//! as `buf.get(at..at + n)` does.

use vstd::prelude::*;

verus! {

/// Big-endian value of the two bytes at `at`.
pub open spec fn be16(b: Seq<u8>, at: int) -> int {
    b[at] * 0x100 + b[at + 1]
}

/// Little-endian value of the two bytes at `at`.
pub open spec fn le16(b: Seq<u8>, at: int) -> int {
    b[at + 1] * 0x100 + b[at]
}

/// Big-endian value of the four bytes at `at`.
pub open spec fn be32(b: Seq<u8>, at: int) -> int {
    b[at] * 0x1000000 + b[at + 1] * 0x10000 + b[at + 2] * 0x100 + b[at + 3]
}

/// Little-endian value of the four bytes at `at`.
pub open spec fn le32(b: Seq<u8>, at: int) -> int {
    b[at + 3] * 0x1000000 + b[at + 2] * 0x10000 + b[at + 1] * 0x100 + b[at]
}

/// Big-endian value of the eight bytes at `at`.
pub open spec fn be64(b: Seq<u8>, at: int) -> int {
    be32(b, at) * 0x100000000 + be32(b, at + 4)
}

/// The bytes `[at, at + n)` all lie inside `b`.
pub open spec fn in_bounds(b: Seq<u8>, at: int, n: int) -> bool {
    0 <= at && at + n <= b.len()
}

/// Reads a big-endian `u16` at `at`, or `None` past the end.
pub fn read_be16(b: &[u8], at: usize) -> (res: Option<u16>)
    ensures
        res is Some <==> in_bounds(b@, at as int, 2),
        res matches Some(v) ==> v == be16(b@, at as int),
{
    if at > b.len() || b.len() - at < 2 {
        return None;
    }
    Some((b[at] as u16) * 0x100 + b[at + 1] as u16)
}

/// Reads a little-endian `u16` at `at`, or `None` past the end.
pub fn read_le16(b: &[u8], at: usize) -> (res: Option<u16>)
    ensures
        res is Some <==> in_bounds(b@, at as int, 2),
        res matches Some(v) ==> v == le16(b@, at as int),
{
    if at > b.len() || b.len() - at < 2 {
        return None;
    }
    Some((b[at + 1] as u16) * 0x100 + b[at] as u16)
}

/// Reads a big-endian `u32` at `at`, or `None` past the end.
pub fn read_be32(b: &[u8], at: usize) -> (res: Option<u32>)
    ensures
        res is Some <==> in_bounds(b@, at as int, 4),
        res matches Some(v) ==> v == be32(b@, at as int),
{
    if at > b.len() || b.len() - at < 4 {
        return None;
    }
    Some((b[at] as u32) * 0x1000000 + (b[at + 1] as u32) * 0x10000 + (b[at + 2] as u32) * 0x100
        + b[at + 3] as u32)
}

/// Reads a little-endian `u32` at `at`, or `None` past the end.
pub fn read_le32(b: &[u8], at: usize) -> (res: Option<u32>)
    ensures
        res is Some <==> in_bounds(b@, at as int, 4),
        res matches Some(v) ==> v == le32(b@, at as int),
{
    if at > b.len() || b.len() - at < 4 {
        return None;
    }
    Some((b[at + 3] as u32) * 0x1000000 + (b[at + 2] as u32) * 0x10000 + (b[at + 1] as u32)
        * 0x100 + b[at] as u32)
}

/// Reads a big-endian `u64` at `at`, or `None` past the end.
pub fn read_be64(b: &[u8], at: usize) -> (res: Option<u64>)
    ensures
        res is Some <==> in_bounds(b@, at as int, 8),
        res matches Some(v) ==> v == be64(b@, at as int),
{
    if at > b.len() || b.len() - at < 8 {
        return None;
    }
    let hi = read_be32(b, at).unwrap();
    let lo = read_be32(b, at + 4).unwrap();
    Some((hi as u64) * 0x100000000 + lo as u64)
}

} // verus!

//! Little-endian integers inside byte buffers.

use vstd::prelude::*;

verus! {

/// The little-endian 16-bit integer at byte `at`.
pub open spec fn le_u16(b: Seq<u8>, at: int) -> int {
    b[at] + 0x100 * b[at + 1]
}

/// The little-endian 32-bit integer at byte `at`.
pub open spec fn le_u32(b: Seq<u8>, at: int) -> int {
    le_u16(b, at) + 0x1_0000 * le_u16(b, at + 2)
}

/// The little-endian 64-bit integer at byte `at`.
pub open spec fn le_u64(b: Seq<u8>, at: int) -> int {
    le_u32(b, at) + 0x1_0000_0000 * le_u32(b, at + 4)
}

/// Read the little-endian 16-bit integer at byte `at`.
pub fn read_u16(b: &[u8], at: usize) -> (v: u16)
    requires
        at + 2 <= b.len(),
    ensures
        v == le_u16(b@, at as int),
{
    b[at] as u16 + 0x100 * b[at + 1] as u16
}

/// Read the little-endian 32-bit integer at byte `at`.
pub fn read_u32(b: &[u8], at: usize) -> (v: u32)
    requires
        at + 4 <= b.len(),
    ensures
        v == le_u32(b@, at as int),
{
    read_u16(b, at) as u32 + 0x1_0000 * read_u16(b, at + 2) as u32
}

/// Read the little-endian 64-bit integer at byte `at`.
pub fn read_u64(b: &[u8], at: usize) -> (v: u64)
    requires
        at + 8 <= b.len(),
    ensures
        v == le_u64(b@, at as int),
{
    read_u32(b, at) as u64 + 0x1_0000_0000 * read_u32(b, at + 4) as u64
}

/// A 16-bit number that is stored low byte first is read back, wherever it
/// stands.
pub proof fn stored_u16_is_read_back(b: &[u8], at: usize, n: u16, v: u16)
    requires
        at + 2 <= b@.len(),
        b@[at as int] == n % 256,
        b@[at + 1] == n / 256,
        call_ensures(read_u16, (b, at), v),
    ensures
        v == n,
{
}

/// A 32-bit number that is stored low byte first is read back, wherever it
/// stands.
pub proof fn stored_u32_is_read_back(b: &[u8], at: usize, n: u32, v: u32)
    requires
        at + 4 <= b@.len(),
        b@[at as int] == n % 256,
        b@[at + 1] == n / 0x100 % 256,
        b@[at + 2] == n / 0x1_0000 % 256,
        b@[at + 3] == n / 0x100_0000,
        call_ensures(read_u32, (b, at), v),
    ensures
        v == n,
{
}

/// A 64-bit number whose halves are stored low half first, each half low byte
/// first, is read back, wherever it stands.
pub proof fn stored_u64_is_read_back(b: &[u8], at: usize, low: u32, high: u32, v: u64)
    requires
        at + 8 <= b@.len(),
        b@[at as int] == low % 256,
        b@[at + 1] == low / 0x100 % 256,
        b@[at + 2] == low / 0x1_0000 % 256,
        b@[at + 3] == low / 0x100_0000,
        b@[at + 4] == high % 256,
        b@[at + 5] == high / 0x100 % 256,
        b@[at + 6] == high / 0x1_0000 % 256,
        b@[at + 7] == high / 0x100_0000,
        call_ensures(read_u64, (b, at), v),
    ensures
        v == low + 0x1_0000_0000 * high,
{
    let lower = b@[at as int] + 0x100 * b@[at + 1] + 0x1_0000 * b@[at + 2] + 0x100_0000 * b@[at
        + 3];
    let upper = b@[at + 4] + 0x100 * b@[at + 5] + 0x1_0000 * b@[at + 6] + 0x100_0000 * b@[at + 7];
    later_bytes_count_more(b@, at as int);
    assert(lower == low);
    assert(upper == high);
}

/// The numbers in a byte string, byte by byte: each byte counts 256 times as
/// much as the one in front of it.
pub proof fn later_bytes_count_more(b: Seq<u8>, at: int)
    ensures
        le_u16(b, at) == b[at] + 0x100 * b[at + 1],
        le_u32(b, at) == b[at] + 0x100 * b[at + 1] + 0x1_0000 * b[at + 2] + 0x100_0000 * b[at + 3],
        le_u64(b, at) == b[at] + 0x100 * b[at + 1] + 0x1_0000 * b[at + 2] + 0x100_0000 * b[at + 3]
            + 0x1_0000_0000 * b[at + 4] + 0x100_0000_0000 * b[at + 5] + 0x1_0000_0000_0000 * b[at
            + 6] + 0x100_0000_0000_0000 * b[at + 7],
{
}

} // verus!

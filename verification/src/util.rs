//! Fixed-width fields of the records that the kernel hands out.
//!
//! Every record is a packed sequence of unsigned integers in little-endian
//! order, which is how the kernel lays them out on little-endian machines.

use vstd::prelude::*;

verus! {

/// The 16-bit field that starts at offset `at`.
pub open spec fn u16_at(buf: Seq<u8>, at: int) -> u16 {
    (buf[at] + 0x100 * buf[at + 1]) as u16
}

/// The 32-bit field that starts at offset `at`.
pub open spec fn u32_at(buf: Seq<u8>, at: int) -> u32 {
    (buf[at] + 0x100 * buf[at + 1] + 0x1_0000 * buf[at + 2] + 0x100_0000 * buf[at + 3]) as u32
}

/// The 64-bit field that starts at offset `at`.
pub open spec fn u64_at(buf: Seq<u8>, at: int) -> u64 {
    (u32_at(buf, at) + 0x1_0000_0000 * u32_at(buf, at + 4)) as u64
}

/// Reads the 16-bit field at offset `at`.
pub fn read_u16(buf: &[u8], at: usize) -> (r: u16)
    requires
        at + 2 <= buf@.len(),
    ensures
        r == u16_at(buf@, at as int),
        r == buf@[at as int] + 0x100 * buf@[at + 1],
{
    let low: u16 = buf[at] as u16;
    let high: u16 = buf[at + 1] as u16;
    low + 0x100 * high
}

/// Reads the 32-bit field at offset `at`.
pub fn read_u32(buf: &[u8], at: usize) -> (r: u32)
    requires
        at + 4 <= buf@.len(),
    ensures
        r == u32_at(buf@, at as int),
{
    assert(at + 4 <= buf.len());
    let low: u32 = read_u16(buf, at) as u32;
    let high: u32 = read_u16(buf, at + 2) as u32;
    low + 0x1_0000 * high
}

/// Reads the 64-bit field at offset `at`.
pub fn read_u64(buf: &[u8], at: usize) -> (r: u64)
    requires
        at + 8 <= buf@.len(),
    ensures
        r == u64_at(buf@, at as int),
{
    assert(at + 8 <= buf.len());
    let low: u64 = read_u32(buf, at) as u64;
    let high: u64 = read_u32(buf, at + 4) as u64;
    low + 0x1_0000_0000 * high
}

/// A field is read the same way wherever its bytes stand in a larger buffer.
pub proof fn lemma_fields_of_subrange(buf: Seq<u8>, from: int, to: int, at: int)
    requires
        0 <= from <= to <= buf.len(),
        0 <= at,
    ensures
        from + at + 2 <= to ==> u16_at(buf.subrange(from, to), at) == u16_at(buf, from + at),
        from + at + 4 <= to ==> u32_at(buf.subrange(from, to), at) == u32_at(buf, from + at),
        from + at + 8 <= to ==> u64_at(buf.subrange(from, to), at) == u64_at(buf, from + at),
{
}

/// Copies a byte slice.
pub(crate) fn copy_bytes(bytes: &[u8]) -> (r: Vec<u8>)
    ensures
        r@ == bytes@,
{
    let mut copy: Vec<u8> = Vec::new();
    let mut i: usize = 0;
    while i < bytes.len()
        invariant
            i <= bytes@.len(),
            copy@ == bytes@.subrange(0, i as int),
        decreases bytes@.len() - i,
    {
        copy.push(bytes[i]);
        i += 1;
    }
    assert(bytes@.subrange(0, i as int) =~= bytes@);
    copy
}

/// Whether two byte slices hold the same bytes.
pub(crate) fn same_bytes(a: &[u8], b: &[u8]) -> (r: bool)
    ensures
        r == (a@ == b@),
{
    if a.len() != b.len() {
        return false;
    }
    let mut i: usize = 0;
    while i < a.len()
        invariant
            i <= a@.len(),
            a@.len() == b@.len(),
            a@.subrange(0, i as int) =~= b@.subrange(0, i as int),
        decreases a@.len() - i,
    {
        if a[i] != b[i] {
            assert(a@[i as int] != b@[i as int]);
            return false;
        }
        i += 1;
    }
    assert(a@.subrange(0, i as int) =~= a@);
    assert(b@.subrange(0, i as int) =~= b@);
    true
}

} // verus!

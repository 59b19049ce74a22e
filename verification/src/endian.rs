//! Little-endian integers in byte strings.

use byteorder::{ByteOrder, LittleEndian, WriteBytesExt};
use vstd::prelude::*;

verus! {

/// The value of two bytes read as a little-endian unsigned integer.
pub open spec fn le_u16(s: Seq<u8>) -> int
    recommends
        s.len() == 2,
{
    s[0] as int + 256 * (s[1] as int)
}

/// The value of four bytes read as a little-endian unsigned integer.
pub open spec fn le_u32(s: Seq<u8>) -> int
    recommends
        s.len() == 4,
{
    s[0] as int + 256 * (s[1] as int) + 65536 * (s[2] as int) + 16777216 * (s[3] as int)
}

/// The value of eight bytes read as a little-endian unsigned integer.
pub open spec fn le_u64(s: Seq<u8>) -> int
    recommends
        s.len() == 8,
{
    le_u32(s.subrange(0, 4)) + 4294967296 * le_u32(s.subrange(4, 8))
}

/// The value of four bytes read as a little-endian two's complement integer.
pub open spec fn le_i32(s: Seq<u8>) -> int
    recommends
        s.len() == 4,
{
    if le_u32(s) >= 2147483648 {
        le_u32(s) - 4294967296
    } else {
        le_u32(s)
    }
}

/// The four bytes that hold `n`, least significant first.
pub open spec fn u32_bytes(n: int) -> Seq<u8>
    recommends
        0 <= n < 4294967296,
{
    seq![
        (n % 256) as u8,
        (n / 256 % 256) as u8,
        (n / 65536 % 256) as u8,
        (n / 16777216 % 256) as u8,
    ]
}

/// The eight bytes that hold `n`, least significant first.
pub open spec fn u64_bytes(n: int) -> Seq<u8>
    recommends
        0 <= n < 18446744073709551616,
{
    u32_bytes(n % 4294967296) + u32_bytes(n / 4294967296)
}

/// The four bytes that hold `n` in two's complement, least significant first.
pub open spec fn i32_bytes(n: int) -> Seq<u8>
    recommends
        -2147483648 <= n < 2147483648,
{
    if n < 0 {
        u32_bytes(n + 4294967296)
    } else {
        u32_bytes(n)
    }
}

/// Reading back what was written gives the number that was written.
pub proof fn lemma_u32_round_trip(n: int)
    requires
        0 <= n < 4294967296,
    ensures
        u32_bytes(n).len() == 4,
        le_u32(u32_bytes(n)) == n,
{
}

/// Reading back what was written gives the number that was written.
pub proof fn lemma_u64_round_trip(n: int)
    requires
        0 <= n < 18446744073709551616,
    ensures
        u64_bytes(n).len() == 8,
        le_u64(u64_bytes(n)) == n,
{
    let lo = n % 4294967296;
    let hi = n / 4294967296;
    lemma_u32_round_trip(lo);
    lemma_u32_round_trip(hi);
    assert(u64_bytes(n).subrange(0, 4) =~= u32_bytes(lo));
    assert(u64_bytes(n).subrange(4, 8) =~= u32_bytes(hi));
}

/// Reading back what was written gives the number that was written.
pub proof fn lemma_i32_round_trip(n: int)
    requires
        -2147483648 <= n < 2147483648,
    ensures
        i32_bytes(n).len() == 4,
        le_i32(i32_bytes(n)) == n,
{
    if n < 0 {
        lemma_u32_round_trip(n + 4294967296);
    } else {
        lemma_u32_round_trip(n);
    }
}

/// Calls `byteorder::ByteOrder::read_u16` of `LittleEndian` on the bytes from
/// `pos` on: the first two of them, least significant first.
#[verifier::external_body]
pub(crate) fn read_u16_at(buf: &[u8], pos: usize) -> (r: u16)
    requires
        pos + 2 <= buf@.len(),
    ensures
        r as int == le_u16(buf@.subrange(pos as int, pos + 2)),
{
    LittleEndian::read_u16(&buf[pos..])
}

/// Calls `byteorder::ByteOrder::read_i32` of `LittleEndian` on the bytes from
/// `pos` on: the first four of them, least significant first, in two's
/// complement.
#[verifier::external_body]
pub(crate) fn read_i32_at(buf: &[u8], pos: usize) -> (r: i32)
    requires
        pos + 4 <= buf@.len(),
    ensures
        r as int == le_i32(buf@.subrange(pos as int, pos + 4)),
{
    LittleEndian::read_i32(&buf[pos..])
}

/// Calls `byteorder::ByteOrder::read_u64` of `LittleEndian` on the bytes from
/// `pos` on: the first eight of them, least significant first.
#[verifier::external_body]
pub(crate) fn read_u64_at(buf: &[u8], pos: usize) -> (r: u64)
    requires
        pos + 8 <= buf@.len(),
    ensures
        r as int == le_u64(buf@.subrange(pos as int, pos + 8)),
{
    LittleEndian::read_u64(&buf[pos..])
}

/// Calls `byteorder::WriteBytesExt::write_i32` with `LittleEndian` on the
/// vector, which appends the four bytes of `n` and cannot fail.
#[verifier::external_body]
pub(crate) fn append_i32(out: &mut Vec<u8>, n: i32)
    ensures
        final(out)@ == old(out)@ + i32_bytes(n as int),
{
    let _ = out.write_i32::<LittleEndian>(n);
}

/// Calls `byteorder::WriteBytesExt::write_u64` with `LittleEndian` on the
/// vector, which appends the eight bytes of `n` and cannot fail.
#[verifier::external_body]
pub(crate) fn append_u64(out: &mut Vec<u8>, n: u64)
    ensures
        final(out)@ == old(out)@ + u64_bytes(n as int),
{
    let _ = out.write_u64::<LittleEndian>(n);
}

} // verus!

//! Little-endian numbers and fixed-size fields inside a sector.

use byteorder::{ByteOrder, LittleEndian};
use vstd::prelude::*;
use vstd::slice::slice_subrange;

verus! {

/// The number held by the first two bytes of `b`, least significant byte first.
pub open spec fn le_u16(b: Seq<u8>) -> int
    recommends
        b.len() >= 2,
{
    b[0] as int + 256 * (b[1] as int)
}

/// The number held by the first four bytes of `b`, least significant byte first.
pub open spec fn le_u32(b: Seq<u8>) -> int
    recommends
        b.len() >= 4,
{
    b[0] as int + 256 * (b[1] as int) + 65536 * (b[2] as int) + 16777216 * (b[3] as int)
}

/// The two-byte little-endian number that starts at offset `at` of `s`.
pub open spec fn le_u16_at(s: Seq<u8>, at: int) -> u16
    recommends
        0 <= at,
        at + 2 <= s.len(),
{
    le_u16(s.subrange(at, at + 2)) as u16
}

/// The four-byte little-endian number that starts at offset `at` of `s`.
pub open spec fn le_u32_at(s: Seq<u8>, at: int) -> u32
    recommends
        0 <= at,
        at + 4 <= s.len(),
{
    le_u32(s.subrange(at, at + 4)) as u32
}

/// The two bytes that hold `x`, least significant byte first.
pub open spec fn le_bytes_u16(x: u16) -> Seq<u8> {
    seq![(x % 256) as u8, (x / 256) as u8]
}

/// The four bytes that hold `x`, least significant byte first.
pub open spec fn le_bytes_u32(x: u32) -> Seq<u8> {
    seq![
        (x % 256) as u8,
        (x / 256 % 256) as u8,
        (x / 65536 % 256) as u8,
        (x / 16777216) as u8,
    ]
}

/// Calls `byteorder::LittleEndian::read_u16`, which reads the first two bytes
/// of `buf` as a little-endian number and panics on a shorter buffer.
#[verifier::external_body]
pub(crate) fn read_u16(buf: &[u8]) -> (r: u16)
    requires
        buf@.len() >= 2,
    ensures
        r as int == le_u16(buf@),
{
    LittleEndian::read_u16(buf)
}

/// Calls `byteorder::LittleEndian::read_u32`, which reads the first four bytes
/// of `buf` as a little-endian number and panics on a shorter buffer.
#[verifier::external_body]
pub(crate) fn read_u32(buf: &[u8]) -> (r: u32)
    requires
        buf@.len() >= 4,
    ensures
        r as int == le_u32(buf@),
{
    LittleEndian::read_u32(buf)
}

/// Reads the two-byte number at offset `at` of `s`.
pub fn u16_at(s: &[u8], at: usize) -> (r: u16)
    requires
        at + 2 <= s.len(),
    ensures
        r == le_u16_at(s@, at as int),
{
    read_u16(slice_subrange(s, at, at + 2))
}

/// Reads the four-byte number at offset `at` of `s`.
pub fn u32_at(s: &[u8], at: usize) -> (r: u32)
    requires
        at + 4 <= s.len(),
    ensures
        r == le_u32_at(s@, at as int),
{
    read_u32(slice_subrange(s, at, at + 4))
}

/// Copies the `N` bytes that start at offset `at` of `s`.
pub fn field<const N: usize>(s: &[u8], at: usize) -> (r: [u8; N])
    requires
        at + N <= s.len(),
    ensures
        r@ == s@.subrange(at as int, at + N),
{
    let mut out: [u8; N] = [0u8; N];
    let mut i: usize = 0;
    while i < N
        invariant
            i <= N,
            at + N <= s.len(),
            forall|j: int| 0 <= j < i ==> out@[j] == s@[at + j],
        decreases N - i,
    {
        out[i] = s[at + i];
        i += 1;
    }
    assert(out@ =~= s@.subrange(at as int, at + N));
    out
}

/// A two-byte field read back is the number that was written.
pub proof fn lemma_le_u16_round_trip(x: u16)
    ensures
        le_u16(le_bytes_u16(x)) == x,
{
}

/// A four-byte field read back is the number that was written.
pub proof fn lemma_le_u32_round_trip(x: u32)
    ensures
        le_u32(le_bytes_u32(x)) == x,
{
    let a = x as int % 256;
    let q1 = x as int / 256;
    let b = q1 % 256;
    let q2 = q1 / 256;
    let c = q2 % 256;
    let d = q2 / 256;
    assert(x as int / 65536 == q2);
    assert(x as int / 16777216 == d);
    assert(x == a + 256 * b + 65536 * c + 16777216 * d);
}

/// Two bytes written back from the number they hold are the same two bytes.
pub proof fn lemma_le_bytes_u16_round_trip(b: Seq<u8>)
    requires
        b.len() == 2,
    ensures
        le_bytes_u16(le_u16(b) as u16) == b,
{
    let x = b[0] as int + 256 * (b[1] as int);
    assert(x % 256 == b[0] && x / 256 == b[1]);
    assert(le_bytes_u16(le_u16(b) as u16) =~= b);
}

/// Four bytes written back from the number they hold are the same four bytes.
pub proof fn lemma_le_bytes_u32_round_trip(b: Seq<u8>)
    requires
        b.len() == 4,
    ensures
        le_bytes_u32(le_u32(b) as u32) == b,
{
    let b0 = b[0] as int;
    let b1 = b[1] as int;
    let b2 = b[2] as int;
    let b3 = b[3] as int;
    let x = b0 + 256 * b1 + 65536 * b2 + 16777216 * b3;
    let q1 = b1 + 256 * b2 + 65536 * b3;
    let q2 = b2 + 256 * b3;
    assert(x == 256 * q1 + b0);
    assert(x / 256 == q1 && x % 256 == b0);
    assert(q1 == 256 * q2 + b1);
    assert(q1 / 256 == q2 && q1 % 256 == b1);
    assert(x / 65536 == q2);
    assert(q2 / 256 == b3 && q2 % 256 == b2);
    assert(x / 16777216 == b3);
    assert(0 <= x <= 0xFFFF_FFFF);
    let y = le_u32(b) as u32;
    assert(y == x);
    let e = le_bytes_u32(y);
    assert(e[0] == b[0]);
    assert(e[1] == b[1]);
    assert(e[2] == b[2]);
    assert(e[3] == b[3]);
    assert(e =~= b);
}

} // verus!

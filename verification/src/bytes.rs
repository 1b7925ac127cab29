//! Little-endian integers in byte buffers.
//!
//! The kernel passes records in the machine's byte order, which is
//! little-endian on every architecture that is supported (amd64 and aarch64).

use vstd::prelude::*;

verus! {

/// The unsigned number in the two bytes at `at`.
pub open spec fn u16_at(b: Seq<u8>, at: int) -> int {
    b[at] + b[at + 1] * 0x100
}

/// The unsigned number in the four bytes at `at`.
pub open spec fn u32_at(b: Seq<u8>, at: int) -> int {
    u16_at(b, at) + u16_at(b, at + 2) * 0x1_0000
}

/// The unsigned number in the eight bytes at `at`.
pub open spec fn u64_at(b: Seq<u8>, at: int) -> int {
    u32_at(b, at) + u32_at(b, at + 4) * 0x1_0000_0000
}

/// `n` in `0..2^32` read as a two's-complement number.
pub open spec fn signed32(n: int) -> int {
    if n < 0x8000_0000 {
        n
    } else {
        n - 0x1_0000_0000
    }
}

/// `n` in `0..2^64` read as a two's-complement number.
pub open spec fn signed64(n: int) -> int {
    if n < 0x8000_0000_0000_0000 {
        n
    } else {
        n - 0x1_0000_0000_0000_0000
    }
}

/// `x` modulo 2^32, for `x` in the range of `i32`.
pub open spec fn unsigned32(x: int) -> int {
    if x < 0 {
        x + 0x1_0000_0000
    } else {
        x
    }
}

/// The two bytes of `n` in `0..2^16`.
pub open spec fn bytes_of_u16(n: int) -> Seq<u8> {
    seq![(n % 0x100) as u8, (n / 0x100) as u8]
}

/// The four bytes of `n` in `0..2^32`.
pub open spec fn bytes_of_u32(n: int) -> Seq<u8> {
    bytes_of_u16(n % 0x1_0000) + bytes_of_u16(n / 0x1_0000)
}

/// Reading gives back what was written, wherever in a buffer it stands.
pub proof fn law_u16_round_trip(b: Seq<u8>, at: int, n: int)
    requires
        0 <= n < 0x1_0000,
        0 <= at,
        at + 2 <= b.len(),
        b.subrange(at, at + 2) == bytes_of_u16(n),
    ensures
        u16_at(b, at) == n,
{
    let w = bytes_of_u16(n);
    assert(b[at] == b.subrange(at, at + 2)[0] && b[at + 1] == b.subrange(at, at + 2)[1]);
    assert(w[0] == n % 0x100 && w[1] == n / 0x100);
}

/// The same for four bytes, signed.
pub proof fn law_i32_round_trip(b: Seq<u8>, at: int, x: i32)
    requires
        0 <= at,
        at + 4 <= b.len(),
        b.subrange(at, at + 4) == bytes_of_u32(unsigned32(x as int)),
    ensures
        signed32(u32_at(b, at)) == x,
{
    let n = unsigned32(x as int);
    let w = b.subrange(at, at + 4);
    assert(b.subrange(at, at + 2) =~= w.subrange(0, 2));
    assert(w.subrange(0, 2) =~= bytes_of_u16(n % 0x1_0000));
    assert(b.subrange(at + 2, at + 4) =~= w.subrange(2, 4));
    assert(w.subrange(2, 4) =~= bytes_of_u16(n / 0x1_0000));
    law_u16_round_trip(b, at, n % 0x1_0000);
    law_u16_round_trip(b, at + 2, n / 0x1_0000);
}

/// The unsigned number in the two bytes at `at`.
pub fn read_u16(b: &[u8], at: usize) -> (r: u16)
    requires
        at + 2 <= b@.len(),
    ensures
        r == u16_at(b@, at as int),
{
    b[at] as u16 + b[at + 1] as u16 * 0x100
}

/// The signed number in the four bytes at `at`.
pub fn read_i32(b: &[u8], at: usize) -> (r: i32)
    requires
        at + 4 <= b@.len(),
    ensures
        r == signed32(u32_at(b@, at as int)),
{
    assert(b.len() == b@.len());
    let n: i64 = read_u16(b, at) as i64 + read_u16(b, at + 2) as i64 * 0x1_0000;
    if n < 0x8000_0000 {
        n as i32
    } else {
        (n - 0x1_0000_0000) as i32
    }
}

/// The signed number in the eight bytes at `at`.
pub fn read_i64(b: &[u8], at: usize) -> (r: i64)
    requires
        at + 8 <= b@.len(),
    ensures
        r == signed64(u64_at(b@, at as int)),
{
    assert(b.len() == b@.len());
    let low: i128 = read_u16(b, at) as i128 + read_u16(b, at + 2) as i128 * 0x1_0000;
    let high: i128 = read_u16(b, at + 4) as i128 + read_u16(b, at + 6) as i128 * 0x1_0000;
    let n: i128 = low + high * 0x1_0000_0000;
    if n < 0x8000_0000_0000_0000 {
        n as i64
    } else {
        (n - 0x1_0000_0000_0000_0000) as i64
    }
}

/// Append the two bytes of `n`.
pub fn push_u16(out: &mut Vec<u8>, n: u16)
    ensures
        final(out)@ == old(out)@ + bytes_of_u16(n as int),
{
    out.push((n % 0x100) as u8);
    out.push((n / 0x100) as u8);
    assert(out@ =~= old(out)@ + bytes_of_u16(n as int));
}

/// Append the four bytes of `x`.
pub fn push_i32(out: &mut Vec<u8>, x: i32)
    ensures
        final(out)@ == old(out)@ + bytes_of_u32(unsigned32(x as int)),
{
    let n: i64 = if x < 0 {
        x as i64 + 0x1_0000_0000
    } else {
        x as i64
    };
    push_u16(out, (n % 0x1_0000) as u16);
    push_u16(out, (n / 0x1_0000) as u16);
    assert(out@ =~= old(out)@ + bytes_of_u32(n as int));
}

/// The bytes of a number stand with the lowest first, each 256 times the weight of
/// the one before.
pub proof fn law_lowest_byte_first(b: Seq<u8>, at: int)
    ensures
        u16_at(b, at) == b[at] + 0x100 * b[at + 1],
        u32_at(b, at) == b[at] + 0x100 * b[at + 1] + 0x1_0000 * b[at + 2] + 0x100_0000 * b[at + 3],
        u64_at(b, at) == b[at] + 0x100 * b[at + 1] + 0x1_0000 * b[at + 2] + 0x100_0000 * b[at + 3]
            + 0x1_0000_0000 * b[at + 4] + 0x100_0000_0000 * b[at + 5] + 0x1_0000_0000_0000 * b[at
            + 6] + 0x100_0000_0000_0000 * b[at + 7],
{
}

/// A signed number is the unsigned one, less the size of the range where it is too
/// large.
pub proof fn law_signed_range(n: int)
    ensures
        0 <= n < 0x1_0000_0000 ==> i32::MIN <= signed32(n) <= i32::MAX && (signed32(n) == n
            || signed32(n) == n - 0x1_0000_0000),
        0 <= n < 0x1_0000_0000_0000_0000 ==> i64::MIN <= signed64(n) <= i64::MAX && (signed64(n)
            == n || signed64(n) == n - 0x1_0000_0000_0000_0000),
        i32::MIN <= n <= i32::MAX ==> 0 <= unsigned32(n) < 0x1_0000_0000 && (unsigned32(n) == n
            || unsigned32(n) == n + 0x1_0000_0000),
{
}

} // verus!

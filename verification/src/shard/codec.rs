use vstd::prelude::*;

use byteorder::{ByteOrder, LittleEndian};
use crc::{Crc, CRC_64_ECMA_182};

verus! {

/// The `width` bytes of `n`, least significant first (bits beyond them dropped).
pub open spec fn le_bytes(n: nat, width: nat) -> Seq<u8>
    decreases width,
{
    if width == 0 {
        Seq::empty()
    } else {
        seq![(n % 256) as u8] + le_bytes(n / 256, (width - 1) as nat)
    }
}

/// The number that bytes spell, least significant first.
pub open spec fn le_value(s: Seq<u8>) -> nat
    decreases s.len(),
{
    if s.len() == 0 {
        0
    } else {
        s[0] as nat + 256 * le_value(s.drop_first())
    }
}

/// 256 to the power `width`: the numbers that `width` bytes can hold.
pub open spec fn byte_range(width: nat) -> nat
    decreases width,
{
    if width == 0 {
        1
    } else {
        256 * byte_range((width - 1) as nat)
    }
}

/// A number that fits in `width` bytes is read back from its little-endian bytes.
pub proof fn lemma_le_roundtrip(n: nat, width: nat)
    requires
        n < byte_range(width),
    ensures
        le_bytes(n, width).len() == width,
        le_value(le_bytes(n, width)) == n,
    decreases width,
{
    if width > 0 {
        let rest = byte_range((width - 1) as nat);
        assert(n / 256 < rest) by (nonlinear_arith)
            requires
                n < 256 * rest,
        ;
        lemma_le_roundtrip(n / 256, (width - 1) as nat);
        let b = le_bytes(n, width);
        assert(b.drop_first() =~= le_bytes(n / 256, (width - 1) as nat));
        assert(n % 256 + 256 * (n / 256) == n) by (nonlinear_arith);
    }
}

/// The widths of `u16`, `u32` and `u64` in bytes hold exactly their values.
pub proof fn lemma_byte_ranges()
    ensures
        byte_range(2) == 0x1_0000,
        byte_range(4) == 0x1_0000_0000,
        byte_range(8) == 0x1_0000_0000_0000_0000,
{
    reveal_with_fuel(byte_range, 9);
}

/// `LittleEndian::write_u16` of byteorder, into a fresh array: the two bytes of
/// `n`, least significant first.
#[verifier::external_body]
pub(crate) fn le_u16_bytes(n: u16) -> (r: [u8; 2])
    ensures
        r@ == le_bytes(n as nat, 2),
{
    let mut buf = [0u8; 2];
    LittleEndian::write_u16(&mut buf, n);
    buf
}

/// `LittleEndian::write_u32` of byteorder, into a fresh array: the four bytes of
/// `n`, least significant first.
#[verifier::external_body]
pub(crate) fn le_u32_bytes(n: u32) -> (r: [u8; 4])
    ensures
        r@ == le_bytes(n as nat, 4),
{
    let mut buf = [0u8; 4];
    LittleEndian::write_u32(&mut buf, n);
    buf
}

/// `LittleEndian::write_u64` of byteorder, into a fresh array: the eight bytes
/// of `n`, least significant first.
#[verifier::external_body]
pub(crate) fn le_u64_bytes(n: u64) -> (r: [u8; 8])
    ensures
        r@ == le_bytes(n as nat, 8),
{
    let mut buf = [0u8; 8];
    LittleEndian::write_u64(&mut buf, n);
    buf
}

/// `LittleEndian::read_u16` of byteorder on the bytes from `pos` on: the number
/// that the two bytes there spell, least significant first.
#[verifier::external_body]
pub(crate) fn le_u16_at(data: &[u8], pos: usize) -> (r: u16)
    requires
        pos + 2 <= data@.len(),
    ensures
        r as nat == le_value(data@.subrange(pos as int, pos + 2)),
{
    LittleEndian::read_u16(&data[pos..])
}

/// `LittleEndian::read_u32` of byteorder on the bytes from `pos` on: the number
/// that the four bytes there spell, least significant first.
#[verifier::external_body]
pub(crate) fn le_u32_at(data: &[u8], pos: usize) -> (r: u32)
    requires
        pos + 4 <= data@.len(),
    ensures
        r as nat == le_value(data@.subrange(pos as int, pos + 4)),
{
    LittleEndian::read_u32(&data[pos..])
}

/// `LittleEndian::read_u64` of byteorder on the bytes from `pos` on: the number
/// that the eight bytes there spell, least significant first.
#[verifier::external_body]
pub(crate) fn le_u64_at(data: &[u8], pos: usize) -> (r: u64)
    requires
        pos + 8 <= data@.len(),
    ensures
        r as nat == le_value(data@.subrange(pos as int, pos + 8)),
{
    LittleEndian::read_u64(&data[pos..])
}

/// The CRC-64/ECMA-182 checksum of a byte string (width 64, polynomial
/// 0x42f0e1eba9ea3693, no reflection, initial value and final xor zero).
pub uninterp spec fn crc64_ecma182(data: Seq<u8>) -> u64;

/// `Crc::<u64>::new(&CRC_64_ECMA_182).checksum` of the crc crate: the
/// CRC-64/ECMA-182 checksum of `data`, a function of the bytes alone.
#[verifier::external_body]
pub(crate) fn crc64_checksum(data: &[u8]) -> (r: u64)
    ensures
        r == crc64_ecma182(data@),
{
    Crc::<u64>::new(&CRC_64_ECMA_182).checksum(data)
}

/// Appends the bytes of an array.
pub fn push_array<const N: usize>(buf: &mut Vec<u8>, a: &[u8; N])
    ensures
        final(buf)@ == old(buf)@ + a@,
{
    let ghost start = buf@;
    let mut i: usize = 0;
    while i < N
        invariant
            i <= N,
            N == a@.len(),
            buf@ == start + a@.take(i as int),
        decreases N - i,
    {
        buf.push(a[i]);
        i = i + 1;
        assert(a@.take(i as int) =~= a@.take(i - 1).push(a@[i - 1]));
    }
    assert(a@.take(N as int) =~= a@);
}

} // verus!

//! Fixed-width integers as byte sequences, in both byte orders.

use vstd::prelude::*;

verus! {

/// `x` as two bytes, most significant first.
pub open spec fn be16(x: u16) -> Seq<u8> {
    seq![(x / 256) as u8, (x % 256) as u8]
}

/// `x` as four bytes, most significant first.
pub open spec fn be32(x: u32) -> Seq<u8> {
    seq![
        (x / 0x100_0000) as u8,
        (x / 0x1_0000 % 256) as u8,
        (x / 256 % 256) as u8,
        (x % 256) as u8,
    ]
}

/// `x` as two bytes, least significant first.
pub open spec fn le16(x: u16) -> Seq<u8> {
    seq![(x % 256) as u8, (x / 256) as u8]
}

/// `x` as four bytes, least significant first.
pub open spec fn le32(x: u32) -> Seq<u8> {
    seq![
        (x % 256) as u8,
        (x / 256 % 256) as u8,
        (x / 0x1_0000 % 256) as u8,
        (x / 0x100_0000) as u8,
    ]
}

/// The number whose two's-complement 32-bit pattern is that of `x`.
pub open spec fn bits_of_i32(x: i32) -> u32 {
    if x < 0 {
        (x + 0x1_0000_0000) as u32
    } else {
        x as u32
    }
}

/// The signed number whose two's-complement 32-bit pattern is `x`.
pub open spec fn i32_of_bits(x: u32) -> i32 {
    if x > 0x7fff_ffff {
        (x - 0x1_0000_0000) as i32
    } else {
        x as i32
    }
}

/// The value of the two bytes at `at`, most significant first.
pub open spec fn be16_at(s: Seq<u8>, at: int) -> u16 {
    (s[at] * 256 + s[at + 1]) as u16
}

/// The value of the two bytes at `at`, least significant first.
pub open spec fn le16_at(s: Seq<u8>, at: int) -> u16 {
    (s[at] + s[at + 1] * 256) as u16
}

/// The value of the four bytes at `at`, least significant first.
pub open spec fn le32_at(s: Seq<u8>, at: int) -> u32 {
    (s[at] + s[at + 1] * 256 + s[at + 2] * 0x1_0000 + s[at + 3] * 0x100_0000) as u32
}

/// The value of the four bytes at `at`, most significant first.
pub open spec fn be32_at(s: Seq<u8>, at: int) -> u32 {
    (s[at] * 0x100_0000 + s[at + 1] * 0x1_0000 + s[at + 2] * 256 + s[at + 3]) as u32
}

/// Reading back the bytes of a number gives the number, in every width and
/// byte order, wherever in a message the bytes stand.
pub proof fn law_read_undoes_write(s: Seq<u8>, at: int, x16: u16, x32: u32)
    requires
        0 <= at,
    ensures
        at + 2 <= s.len() && s.subrange(at, at + 2) == be16(x16) ==> be16_at(s, at) == x16,
        at + 2 <= s.len() && s.subrange(at, at + 2) == le16(x16) ==> le16_at(s, at) == x16,
        at + 4 <= s.len() && s.subrange(at, at + 4) == be32(x32) ==> be32_at(s, at) == x32,
        at + 4 <= s.len() && s.subrange(at, at + 4) == le32(x32) ==> le32_at(s, at) == x32,
{
    if at + 2 <= s.len() {
        let t = s.subrange(at, at + 2);
        assert(t[0] == s[at] && t[1] == s[at + 1]);
    }
    if at + 4 <= s.len() {
        let t = s.subrange(at, at + 4);
        assert(t[0] == s[at] && t[1] == s[at + 1] && t[2] == s[at + 2] && t[3] == s[at + 3]);
    }
}

/// Signed numbers survive the trip through their bit pattern.
pub proof fn law_i32_bits_round_trip(x: i32)
    ensures
        i32_of_bits(bits_of_i32(x)) == x,
{
}

/// Appends `x`, most significant byte first.
pub fn push_be16(out: &mut Vec<u8>, x: u16)
    ensures
        final(out)@ == old(out)@ + be16(x),
{
    out.push((x / 256) as u8);
    out.push((x % 256) as u8);
    assert(out@ =~= old(out)@ + be16(x));
}

/// Appends `x`, most significant byte first.
pub fn push_be32(out: &mut Vec<u8>, x: u32)
    ensures
        final(out)@ == old(out)@ + be32(x),
{
    out.push((x / 0x100_0000) as u8);
    out.push((x / 0x1_0000 % 256) as u8);
    out.push((x / 256 % 256) as u8);
    out.push((x % 256) as u8);
    assert(out@ =~= old(out)@ + be32(x));
}

/// Appends `x`, least significant byte first.
pub fn push_le16(out: &mut Vec<u8>, x: u16)
    ensures
        final(out)@ == old(out)@ + le16(x),
{
    out.push((x % 256) as u8);
    out.push((x / 256) as u8);
    assert(out@ =~= old(out)@ + le16(x));
}

/// Appends `x`, least significant byte first.
pub fn push_le32(out: &mut Vec<u8>, x: u32)
    ensures
        final(out)@ == old(out)@ + le32(x),
{
    out.push((x % 256) as u8);
    out.push((x / 256 % 256) as u8);
    out.push((x / 0x1_0000 % 256) as u8);
    out.push((x / 0x100_0000) as u8);
    assert(out@ =~= old(out)@ + le32(x));
}

/// Appends every byte of `bytes`.
pub fn push_all(out: &mut Vec<u8>, bytes: &[u8])
    ensures
        final(out)@ == old(out)@ + bytes@,
{
    out.extend_from_slice(bytes);
    assert(out@ =~= old(out)@ + bytes@);
}

/// The bit pattern of a signed number.
pub fn i32_to_bits(x: i32) -> (r: u32)
    ensures
        r == bits_of_i32(x),
{
    if x < 0 {
        (x as i64 + 0x1_0000_0000) as u32
    } else {
        x as u32
    }
}

/// The signed number of a bit pattern.
pub fn i32_from_bits(x: u32) -> (r: i32)
    ensures
        r == i32_of_bits(x),
{
    if x > 0x7fff_ffff {
        (x as i64 - 0x1_0000_0000) as i32
    } else {
        x as i32
    }
}

/// Reads two bytes at `at`, most significant first.
pub fn read_be16(s: &[u8], at: usize) -> (r: u16)
    requires
        at + 2 <= s@.len(),
    ensures
        r == be16_at(s@, at as int),
{
    s[at] as u16 * 256 + s[at + 1] as u16
}

/// Reads two bytes at `at`, least significant first.
pub fn read_le16(s: &[u8], at: usize) -> (r: u16)
    requires
        at + 2 <= s@.len(),
    ensures
        r == le16_at(s@, at as int),
{
    s[at] as u16 + s[at + 1] as u16 * 256
}

/// Reads four bytes at `at`, least significant first.
pub fn read_le32(s: &[u8], at: usize) -> (r: u32)
    requires
        at + 4 <= s@.len(),
    ensures
        r == le32_at(s@, at as int),
{
    s[at] as u32 + s[at + 1] as u32 * 256 + s[at + 2] as u32 * 0x1_0000
        + s[at + 3] as u32 * 0x100_0000
}

/// A copy of the bytes from `from` up to `to`.
pub fn copy_range(s: &[u8], from: usize, to: usize) -> (r: Vec<u8>)
    requires
        from <= to <= s@.len(),
    ensures
        r@ == s@.subrange(from as int, to as int),
{
    let mut out: Vec<u8> = Vec::new();
    let mut i: usize = from;
    while i < to
        invariant
            from <= i <= to <= s@.len(),
            out@ == s@.subrange(from as int, i as int),
        decreases to - i,
    {
        out.push(s[i]);
        i = i + 1;
        assert(out@ =~= s@.subrange(from as int, i as int));
    }
    out
}

/// The bytes of a number are its digits to base 256, least significant first, and the
/// other way round in the other order.
pub proof fn law_bytes_are_digits(x16: u16, x32: u32)
    ensures
        le16(x16).len() == 2,
        le16(x16)[0] + 0x100 * le16(x16)[1] == x16,
        be16(x16) == le16(x16).reverse(),
        le32(x32).len() == 4,
        le32(x32)[0] + 0x100 * le32(x32)[1] + 0x1_0000 * le32(x32)[2] + 0x100_0000 * le32(x32)[3]
            == x32,
        be32(x32) == le32(x32).reverse(),
{
    assert(be16(x16) =~= le16(x16).reverse());
    assert(be32(x32) =~= le32(x32).reverse());
}

/// What is read is the number whose digits to base 256 the bytes are, wherever they
/// stand.
pub proof fn law_reading_sums_digits(s: Seq<u8>, at: int)
    ensures
        le16_at(s, at) == s[at] + 0x100 * s[at + 1],
        be16_at(s, at) == s[at + 1] + 0x100 * s[at],
        le32_at(s, at) == s[at] + 0x100 * s[at + 1] + 0x1_0000 * s[at + 2] + 0x100_0000 * s[at + 3],
        be32_at(s, at) == s[at + 3] + 0x100 * s[at + 2] + 0x1_0000 * s[at + 1] + 0x100_0000 * s[at],
{
}

/// A signed number and its bits are equal up to two to the power of 32, and equal
/// where the number is not negative.
pub proof fn law_bits_are_twos_complement(x: i32, bits: u32)
    ensures
        bits_of_i32(x) == x || (x < 0 && bits_of_i32(x) == x + 0x1_0000_0000),
        i32_of_bits(bits) == bits || (bits >= 0x8000_0000 && i32_of_bits(bits) == bits
            - 0x1_0000_0000),
{
}

} // verus!

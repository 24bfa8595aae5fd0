//! Little-endian integers.

use vstd::prelude::*;

verus! {

/// The value of two bytes, the low-order one first.
pub open spec fn u16_value(b: Seq<u8>) -> int {
    b[0] + 0x100 * b[1]
}

/// The value of four bytes, the low-order one first.
pub open spec fn u32_value(b: Seq<u8>) -> int {
    b[0] + 0x100 * b[1] + 0x1_0000 * b[2] + 0x100_0000 * b[3]
}

/// The 16 low-order bits of `x` as bytes, the low-order one first.
pub open spec fn u16_le(x: int) -> Seq<u8> {
    seq![(x % 0x100) as u8, (x / 0x100 % 0x100) as u8]
}

/// The 32 low-order bits of `x` as bytes, the low-order one first.
pub open spec fn u32_le(x: int) -> Seq<u8> {
    seq![
        (x % 0x100) as u8,
        (x / 0x100 % 0x100) as u8,
        (x / 0x1_0000 % 0x100) as u8,
        (x / 0x100_0000 % 0x100) as u8,
    ]
}

/// Reads the two bytes at `at`.
pub fn read_u16(bytes: &[u8], at: usize) -> (x: u16)
    requires
        at + 2 <= bytes@.len(),
    ensures
        x == u16_value(bytes@.subrange(at as int, at + 2)),
{
    bytes[at] as u16 + 0x100 * bytes[at + 1] as u16
}

/// Reads the four bytes at `at`.
pub fn read_u32(bytes: &[u8], at: usize) -> (x: u32)
    requires
        at + 4 <= bytes@.len(),
    ensures
        x == u32_value(bytes@.subrange(at as int, at + 4)),
{
    bytes[at] as u32 + 0x100 * bytes[at + 1] as u32 + 0x1_0000 * bytes[at + 2] as u32 + 0x100_0000
        * bytes[at + 3] as u32
}

pub fn u16_bytes(x: u16) -> (b: [u8; 2])
    ensures
        b@ == u16_le(x as int),
{
    [(x % 0x100) as u8, (x / 0x100) as u8]
}

pub fn u32_bytes(x: u32) -> (b: [u8; 4])
    ensures
        b@ == u32_le(x as int),
{
    [
        (x % 0x100) as u8,
        (x / 0x100 % 0x100) as u8,
        (x / 0x1_0000 % 0x100) as u8,
        (x / 0x100_0000) as u8,
    ]
}

/// Writing an integer and reading it back gives the integer.
pub proof fn law_integers_read_back(x: u16, y: u32)
    ensures
        u16_value(u16_le(x as int)) == x,
        u32_value(u32_le(y as int)) == y,
{
}

/// Reading bytes as an integer and writing it gives the bytes.
pub proof fn law_bytes_write_back(a: Seq<u8>, b: Seq<u8>)
    requires
        a.len() == 2,
        b.len() == 4,
    ensures
        u16_le(u16_value(a)) == a,
        u32_le(u32_value(b)) == b,
{
    lemma_digits(b[0] as int, b[1] as int, b[2] as int, b[3] as int);
    assert(u16_le(u16_value(a)) =~= a);
    assert(u32_le(u32_value(b)) =~= b);
}

proof fn lemma_digits(b0: int, b1: int, b2: int, b3: int)
    requires
        0 <= b0 < 0x100,
        0 <= b1 < 0x100,
        0 <= b2 < 0x100,
        0 <= b3 < 0x100,
    ensures
        ({
            let x = b0 + 0x100 * b1 + 0x1_0000 * b2 + 0x100_0000 * b3;
            &&& x % 0x100 == b0
            &&& x / 0x100 % 0x100 == b1
            &&& x / 0x1_0000 % 0x100 == b2
            &&& x / 0x100_0000 % 0x100 == b3
        }),
{
    let x = b0 + 0x100 * b1 + 0x1_0000 * b2 + 0x100_0000 * b3;
    assert(x / 0x100 == b1 + 0x100 * b2 + 0x1_0000 * b3);
    assert(x / 0x1_0000 == b2 + 0x100 * b3);
    assert(x / 0x100_0000 == b3);
}

/// Each byte weighs 256 times as much as the one before it, and only the low-order
/// bits of a number are written.
pub proof fn law_bytes_are_weighed(x: int, a: Seq<u8>, b: Seq<u8>)
    requires
        0 <= x,
        a.len() == 2,
        b.len() == 4,
    ensures
        u16_le(x).len() == 2,
        u16_le(x)[0] + 256 * u16_le(x)[1] == x % 0x1_0000,
        u32_le(x).len() == 4,
        u32_le(x)[0] + 256 * u32_le(x)[1] + 65536 * u32_le(x)[2] + 16777216 * u32_le(x)[3] == x
            % 0x1_0000_0000,
        u16_value(a) == a[0] + 256 * a[1],
        u32_value(b) == b[0] + 256 * b[1] + 65536 * b[2] + 16777216 * b[3],
{
    let q = x / 0x1_0000_0000;
    let r = x % 0x1_0000_0000;
    assert(x == q * 0x1_0000_0000 + r);
    assert(x / 0x100 == q * 0x100_0000 + r / 0x100);
    assert(x / 0x1_0000 == q * 0x1_0000 + r / 0x1_0000);
    assert(x / 0x100_0000 == q * 0x100 + r / 0x100_0000);
}

} // verus!

//! 32-bit numbers as four bytes, in both byte orders.
use vstd::prelude::*;

verus! {

/// The number of values of a 32-bit number.
pub open spec fn word() -> nat {
    0x1_0000_0000
}

/// The value of the first four bytes of `s`, most significant first.
pub open spec fn be_value(s: Seq<u8>) -> nat {
    (s[0] * 0x100_0000 + s[1] * 0x1_0000 + s[2] * 0x100 + s[3]) as nat
}

/// The value of the first four bytes of `s`, least significant first.
pub open spec fn le_value(s: Seq<u8>) -> nat {
    (s[3] * 0x100_0000 + s[2] * 0x1_0000 + s[1] * 0x100 + s[0]) as nat
}

/// The low 32 bits of `n` as four bytes, most significant first.
pub open spec fn be_bytes(n: nat) -> Seq<u8> {
    let m = n % word();
    seq![
        (m / 0x100_0000) as u8,
        (m / 0x1_0000 % 0x100) as u8,
        (m / 0x100 % 0x100) as u8,
        (m % 0x100) as u8,
    ]
}

/// The low 32 bits of `n` as four bytes, least significant first.
pub open spec fn le_bytes(n: nat) -> Seq<u8> {
    let m = n % word();
    seq![
        (m % 0x100) as u8,
        (m / 0x100 % 0x100) as u8,
        (m / 0x1_0000 % 0x100) as u8,
        (m / 0x100_0000) as u8,
    ]
}

/// A 32-bit number is the sum of its four digits to the base 256.
proof fn lemma_digits(m: nat)
    requires
        m < word(),
    ensures
        m / 0x100_0000 < 0x100,
        m == m / 0x100_0000 * 0x100_0000 + m / 0x1_0000 % 0x100 * 0x1_0000 + m / 0x100 % 0x100
            * 0x100 + m % 0x100,
{
    assert(m / 0x1_0000 == m / 0x100 / 0x100);
    assert(m / 0x100_0000 == m / 0x1_0000 / 0x100);
}

/// Four big-endian bytes give back the low 32 bits they were made from,
/// whatever follows them.
pub proof fn lemma_be_round_trip(n: nat, rest: Seq<u8>)
    ensures
        be_bytes(n).len() == 4,
        be_value(be_bytes(n) + rest) == n % word(),
{
    lemma_digits(n % word());
}

/// Four little-endian bytes give back the low 32 bits they were made from,
/// whatever follows them.
pub proof fn lemma_le_round_trip(n: nat, rest: Seq<u8>)
    ensures
        le_bytes(n).len() == 4,
        le_value(le_bytes(n) + rest) == n % word(),
{
    lemma_digits(n % word());
}

/// The low 32 bits of `n`, which are all that its four bytes show.
pub fn low_word(n: usize) -> (low: u32)
    ensures
        low == n as nat % word(),
        be_bytes(low as nat) == be_bytes(n as nat),
        le_bytes(low as nat) == le_bytes(n as nat),
{
    let wide: u64 = n as u64;
    assert(wide as u32 == wide % 0x1_0000_0000) by (bit_vector);
    wide as u32
}

/// `n` as four bytes, most significant first.
pub fn be_array(n: u32) -> (bytes: [u8; 4])
    ensures
        bytes@ == be_bytes(n as nat),
{
    let bytes: [u8; 4] = [
        (n / 0x100_0000) as u8,
        (n / 0x1_0000 % 0x100) as u8,
        (n / 0x100 % 0x100) as u8,
        (n % 0x100) as u8,
    ];
    assert(bytes@ =~= be_bytes(n as nat));
    bytes
}

/// `n` as four bytes, least significant first.
pub fn le_array(n: u32) -> (bytes: [u8; 4])
    ensures
        bytes@ == le_bytes(n as nat),
{
    let bytes: [u8; 4] = [
        (n % 0x100) as u8,
        (n / 0x100 % 0x100) as u8,
        (n / 0x1_0000 % 0x100) as u8,
        (n / 0x100_0000) as u8,
    ];
    assert(bytes@ =~= le_bytes(n as nat));
    bytes
}

/// The number whose four bytes, least significant first, start at `at`.
pub fn read_le(bytes: &[u8], at: usize) -> (n: u32)
    requires
        at + 4 <= bytes@.len(),
    ensures
        n == le_value(bytes@.skip(at as int)),
{
    assert(bytes.len() == bytes@.len());
    bytes[at + 3] as u32 * 0x100_0000 + bytes[at + 2] as u32 * 0x1_0000 + bytes[at + 1] as u32
        * 0x100 + bytes[at] as u32
}

} // verus!

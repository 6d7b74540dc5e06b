//! Fixed-width integers as bytes, and small helpers on byte sequences.

use vstd::prelude::*;

verus! {

/// The two bytes of `x`, most significant first.
pub open spec fn be16(x: u16) -> Seq<u8> {
    seq![(x / 0x100) as u8, (x % 0x100) as u8]
}

/// The four bytes of `x`, most significant first.
pub open spec fn be32(x: u32) -> Seq<u8> {
    seq![
        (x / 0x100_0000) as u8,
        (x / 0x1_0000 % 0x100) as u8,
        (x / 0x100 % 0x100) as u8,
        (x % 0x100) as u8,
    ]
}

/// The eight bytes of `x`, most significant first.
pub open spec fn be64(x: u64) -> Seq<u8> {
    be32((x / 0x1_0000_0000) as u32) + be32((x % 0x1_0000_0000) as u32)
}

/// The four bytes of `x`, least significant first.
pub open spec fn le32(x: u32) -> Seq<u8> {
    seq![
        (x % 0x100) as u8,
        (x / 0x100 % 0x100) as u8,
        (x / 0x1_0000 % 0x100) as u8,
        (x / 0x100_0000) as u8,
    ]
}

/// The eight bytes of `x`, least significant first.
pub open spec fn le64(x: u64) -> Seq<u8> {
    le32((x % 0x1_0000_0000) as u32) + le32((x / 0x1_0000_0000) as u32)
}

/// The number that the two bytes of `s` at `at` spell, most significant first.
pub open spec fn u16_at(s: Seq<u8>, at: int) -> u16 {
    (s[at] * 0x100 + s[at + 1]) as u16
}

/// The number that the four bytes of `s` at `at` spell, most significant first.
pub open spec fn u32_at(s: Seq<u8>, at: int) -> u32 {
    (s[at] * 0x100_0000 + s[at + 1] * 0x1_0000 + s[at + 2] * 0x100 + s[at + 3]) as u32
}

/// A 32-bit number is made of its four bytes.
proof fn lemma_u32_from_bytes(x: u32)
    ensures
        x == x / 0x100_0000 * 0x100_0000 + x / 0x1_0000 % 0x100 * 0x1_0000 + x / 0x100 % 0x100
            * 0x100 + x % 0x100,
        x / 0x100_0000 < 0x100,
{
    assert(x == x / 0x100_0000 * 0x100_0000 + x / 0x1_0000 % 0x100 * 0x1_0000 + x / 0x100 % 0x100
        * 0x100 + x % 0x100) by (bit_vector);
    assert(x / 0x100_0000 < 0x100) by (bit_vector);
}

/// A 32-bit number read back from its bytes is the number.
pub proof fn lemma_be32_roundtrip(x: u32)
    ensures
        be32(x).len() == 4,
        u32_at(be32(x), 0) == x,
{
    lemma_u32_from_bytes(x);
}

/// The bytes of a 16-bit number that was read are those it was read from.
pub proof fn lemma_be16_of_read(s: Seq<u8>, at: int)
    requires
        0 <= at,
        at + 2 <= s.len(),
    ensures
        be16(u16_at(s, at)) == s.subrange(at, at + 2),
{
    assert(be16(u16_at(s, at)) =~= s.subrange(at, at + 2));
}

/// The bytes of a 32-bit number that was read are those it was read from.
pub proof fn lemma_be32_of_read(s: Seq<u8>, at: int)
    requires
        0 <= at,
        at + 4 <= s.len(),
    ensures
        be32(u32_at(s, at)) == s.subrange(at, at + 4),
{
    let (a, b, c, d) = (s[at], s[at + 1], s[at + 2], s[at + 3]);
    let x = u32_at(s, at);
    assert(x == a * 0x100_0000 + b * 0x1_0000 + c * 0x100 + d);
    assert(x / 0x100_0000 == a && x / 0x1_0000 % 0x100 == b && x / 0x100 % 0x100 == c && x % 0x100
        == d) by (bit_vector)
        requires
            x == a * 0x100_0000 + b * 0x1_0000 + c * 0x100 + d,
    ;
    assert(be32(x) =~= s.subrange(at, at + 4));
}

/// Two 32-bit numbers with the same bytes are the same number.
pub proof fn lemma_be32_injective(x: u32, y: u32)
    requires
        be32(x) == be32(y),
    ensures
        x == y,
{
    lemma_be32_roundtrip(x);
    lemma_be32_roundtrip(y);
}

/// Two 64-bit numbers with the same bytes are the same number.
pub proof fn lemma_be64_injective(x: u64, y: u64)
    requires
        be64(x) == be64(y),
    ensures
        x == y,
{
    let xh = (x / 0x1_0000_0000) as u32;
    let xl = (x % 0x1_0000_0000) as u32;
    let yh = (y / 0x1_0000_0000) as u32;
    let yl = (y % 0x1_0000_0000) as u32;
    assert(be64(x).subrange(0, 4) == be32(xh));
    assert(be64(y).subrange(0, 4) == be32(yh));
    assert(be64(x).subrange(4, 8) == be32(xl));
    assert(be64(y).subrange(4, 8) == be32(yl));
    lemma_be32_injective(xh, yh);
    lemma_be32_injective(xl, yl);
}

/// The first `n` bytes of a byte string that has that many.
pub open spec fn first_bytes(s: Seq<u8>, n: nat) -> Seq<u8> {
    Seq::new(n, |i: int| s[i])
}

/// The UTF-8 bytes of a text.
pub open spec fn text_bytes(s: Seq<char>) -> Seq<u8> {
    vstd::utf8::encode_utf8(s)
}

/// Two 64-bit numbers with the same bytes, least significant first, are the
/// same number.
pub proof fn lemma_le64_injective(x: u64, y: u64)
    requires
        le64(x) == le64(y),
    ensures
        x == y,
{
    let xh = (x / 0x1_0000_0000) as u32;
    let xl = (x % 0x1_0000_0000) as u32;
    let yh = (y / 0x1_0000_0000) as u32;
    let yl = (y % 0x1_0000_0000) as u32;
    assert(le64(x).subrange(0, 4) == le32(xl));
    assert(le64(y).subrange(0, 4) == le32(yl));
    assert(le64(x).subrange(4, 8) == le32(xh));
    assert(le64(y).subrange(4, 8) == le32(yh));
    lemma_le32_injective(xh, yh);
    lemma_le32_injective(xl, yl);
}

/// Two 32-bit numbers with the same bytes, least significant first, are the
/// same number.
pub proof fn lemma_le32_injective(x: u32, y: u32)
    requires
        le32(x) == le32(y),
    ensures
        x == y,
{
    lemma_u32_from_bytes(x);
    lemma_u32_from_bytes(y);
    assert(x % 0x100 == le32(x)[0] == y % 0x100);
    assert(x / 0x100 % 0x100 == le32(x)[1] == y / 0x100 % 0x100);
    assert(x / 0x1_0000 % 0x100 == le32(x)[2] == y / 0x1_0000 % 0x100);
    assert(x / 0x100_0000 == le32(x)[3] == y / 0x100_0000);
}

/// Appends the two bytes of `x`, most significant first.
pub fn push_be16(buf: &mut Vec<u8>, x: u16)
    ensures
        final(buf)@ == old(buf)@ + be16(x),
{
    buf.push((x / 0x100) as u8);
    buf.push((x % 0x100) as u8);
}

/// Appends the four bytes of `x`, most significant first.
pub fn push_be32(buf: &mut Vec<u8>, x: u32)
    ensures
        final(buf)@ == old(buf)@ + be32(x),
{
    buf.push((x / 0x100_0000) as u8);
    buf.push((x / 0x1_0000 % 0x100) as u8);
    buf.push((x / 0x100 % 0x100) as u8);
    buf.push((x % 0x100) as u8);
}

/// Appends the eight bytes of `x`, most significant first.
pub fn push_be64(buf: &mut Vec<u8>, x: u64)
    ensures
        final(buf)@ == old(buf)@ + be64(x),
{
    push_be32(buf, (x / 0x1_0000_0000) as u32);
    push_be32(buf, (x % 0x1_0000_0000) as u32);
}

/// Appends the four bytes of `x`, least significant first.
pub fn push_le32(buf: &mut Vec<u8>, x: u32)
    ensures
        final(buf)@ == old(buf)@ + le32(x),
{
    buf.push((x % 0x100) as u8);
    buf.push((x / 0x100 % 0x100) as u8);
    buf.push((x / 0x1_0000 % 0x100) as u8);
    buf.push((x / 0x100_0000) as u8);
}

/// Appends the eight bytes of `x`, least significant first.
pub fn push_le64(buf: &mut Vec<u8>, x: u64)
    ensures
        final(buf)@ == old(buf)@ + le64(x),
{
    push_le32(buf, (x % 0x1_0000_0000) as u32);
    push_le32(buf, (x / 0x1_0000_0000) as u32);
}

/// Reads the 16-bit number at `at`, most significant byte first.
pub fn read_be16(data: &[u8], at: usize) -> (r: u16)
    requires
        at + 2 <= data@.len(),
    ensures
        r == u16_at(data@, at as int),
{
    data[at] as u16 * 0x100 + data[at + 1] as u16
}

/// Reads the 32-bit number at `at`, most significant byte first.
pub fn read_be32(data: &[u8], at: usize) -> (r: u32)
    requires
        at + 4 <= data@.len(),
    ensures
        r == u32_at(data@, at as int),
{
    data[at] as u32 * 0x100_0000 + data[at + 1] as u32 * 0x1_0000 + data[at + 2] as u32 * 0x100
        + data[at + 3] as u32
}

/// Appends a copy of `tail`.
pub fn push_slice(buf: &mut Vec<u8>, tail: &[u8])
    ensures
        final(buf)@ == old(buf)@ + tail@,
{
    buf.extend_from_slice(tail);
    assert(buf@ =~= old(buf)@ + tail@);
}

/// Copies the `N` bytes at `at` into an array.
pub fn array_at<const N: usize>(data: &[u8], at: usize) -> (r: [u8; N])
    requires
        at + N <= data@.len(),
    ensures
        r@ == data@.subrange(at as int, at + N),
        at == 0 ==> r@ == first_bytes(data@, N as nat),
{
    let len: usize = data.len();
    let mut r: [u8; N] = [0u8; N];
    let mut i: usize = 0;
    while i < N
        invariant
            i <= N,
            len == data@.len(),
            at + N <= len,
            forall|j: int| 0 <= j < i ==> r@[j] == data@[at + j],
        decreases N - i,
    {
        r[i] = data[at + i];
        i += 1;
    }
    assert(r@ =~= data@.subrange(at as int, at + N));
    assert(at == 0 ==> r@ =~= first_bytes(data@, N as nat));
    r
}

/// Whether two byte strings are equal.
pub fn same_bytes(a: &[u8], b: &[u8]) -> (r: bool)
    ensures
        r == (a@ == b@),
{
    if a.len() != b.len() {
        return false;
    }
    let mut i: usize = 0;
    while i < a.len()
        invariant
            i <= a@.len(),
            a@.len() == b@.len(),
            forall|j: int| 0 <= j < i ==> a@[j] == b@[j],
        decreases a@.len() - i,
    {
        if a[i] != b[i] {
            return false;
        }
        i += 1;
    }
    assert(a@ =~= b@);
    true
}

/// Law: big-endian bytes spell the number, most significant byte first.
pub proof fn law_big_endian_bytes_spell_the_number(x: u16, y: u32, z: u64)
    ensures
        be16(x).len() == 2,
        be16(x)[0] * 0x100 + be16(x)[1] == x,
        be32(y).len() == 4,
        be32(y)[0] * 0x100_0000 + be32(y)[1] * 0x1_0000 + be32(y)[2] * 0x100 + be32(y)[3] == y,
        be64(z).len() == 8,
        (be64(z)[0] * 0x100_0000 + be64(z)[1] * 0x1_0000 + be64(z)[2] * 0x100 + be64(z)[3])
            * 0x1_0000_0000 + be64(z)[4] * 0x100_0000 + be64(z)[5] * 0x1_0000 + be64(z)[6] * 0x100
            + be64(z)[7] == z,
{
    lemma_u32_from_bytes(y);
    lemma_u32_from_bytes((z / 0x1_0000_0000) as u32);
    lemma_u32_from_bytes((z % 0x1_0000_0000) as u32);
}

/// Law: little-endian bytes spell the number, least significant byte first.
pub proof fn law_little_endian_bytes_spell_the_number(y: u32, z: u64)
    ensures
        le32(y).len() == 4,
        le32(y)[3] * 0x100_0000 + le32(y)[2] * 0x1_0000 + le32(y)[1] * 0x100 + le32(y)[0] == y,
        le64(z).len() == 8,
        (le64(z)[7] * 0x100_0000 + le64(z)[6] * 0x1_0000 + le64(z)[5] * 0x100 + le64(z)[4])
            * 0x1_0000_0000 + le64(z)[3] * 0x100_0000 + le64(z)[2] * 0x1_0000 + le64(z)[1] * 0x100
            + le64(z)[0] == z,
{
    lemma_u32_from_bytes(y);
    lemma_u32_from_bytes((z / 0x1_0000_0000) as u32);
    lemma_u32_from_bytes((z % 0x1_0000_0000) as u32);
}

/// Law: the number read at a place is the one that the bytes there spell, most
/// significant first.
pub proof fn law_reading_is_big_endian(s: Seq<u8>, at: int)
    ensures
        u16_at(s, at) == s[at] * 0x100 + s[at + 1],
        u32_at(s, at) == s[at] * 0x100_0000 + s[at + 1] * 0x1_0000 + s[at + 2] * 0x100 + s[at + 3],
{
}

/// Law: the first bytes of a byte string are its own, in their places.
pub proof fn law_first_bytes_are_in_place(s: Seq<u8>, n: nat)
    ensures
        first_bytes(s, n).len() == n,
        forall|i: int| 0 <= i < n ==> #[trigger] first_bytes(s, n)[i] == s[i],
{
}

/// Law: a text's bytes are its UTF-8 encoding.
pub proof fn law_text_bytes_are_utf8(text: Seq<char>)
    ensures
        text_bytes(text) == vstd::utf8::encode_utf8(text),
{
}

} // verus!

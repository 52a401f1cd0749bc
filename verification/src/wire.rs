//! Numbers in network byte order, and a buffer with some of its bytes replaced.

use byteorder::{ByteOrder, NetworkEndian};
use vstd::arithmetic::div_mod::lemma_fundamental_div_mod_converse;
use vstd::prelude::*;

verus! {

/// The number that the two bytes at `at` spell, the high byte first.
pub open spec fn u16_be(s: Seq<u8>, at: int) -> u16 {
    (s[at] as int * 0x100 + s[at + 1] as int) as u16
}

/// The number that the four bytes at `at` spell, the highest byte first.
pub open spec fn u32_be(s: Seq<u8>, at: int) -> u32 {
    (s[at] as int * 0x100_0000 + s[at + 1] as int * 0x1_0000 + s[at + 2] as int * 0x100 + s[at
        + 3] as int) as u32
}

/// The two bytes that spell `n`, the high byte first.
pub open spec fn u16_be_bytes(n: u16) -> Seq<u8> {
    seq![(n / 0x100) as u8, (n % 0x100) as u8]
}

/// The four bytes that spell `n`, the highest byte first.
pub open spec fn u32_be_bytes(n: u32) -> Seq<u8> {
    seq![
        (n / 0x100_0000) as u8,
        (n / 0x1_0000 % 0x100) as u8,
        (n / 0x100 % 0x100) as u8,
        (n % 0x100) as u8,
    ]
}

/// `s` with the bytes from `at` on replaced by `data`.
pub open spec fn splice(s: Seq<u8>, at: int, data: Seq<u8>) -> Seq<u8>
    recommends
        0 <= at,
        at + data.len() <= s.len(),
{
    s.subrange(0, at) + data + s.subrange(at + data.len(), s.len() as int)
}

/// The low 16 bits of a length, as a cast to `u16` keeps them.
pub open spec fn low16(n: int) -> u16 {
    (n % 0x1_0000) as u16
}

/// `n`, or the largest `u16` where `n` is larger.
pub open spec fn sat16(n: int) -> u16 {
    if n > 0xffff {
        0xffffu16
    } else {
        n as u16
    }
}

/// The low 16 bits of `n`.
pub fn low16_of(n: usize) -> (r: u16)
    ensures
        r == low16(n as int),
{
    (n % 0x1_0000) as u16
}

/// `n`, or the largest `u16` where `n` is larger.
pub fn sat16_of(n: usize) -> (r: u16)
    ensures
        r == sat16(n as int),
{
    if n > 0xffff {
        0xffff
    } else {
        n as u16
    }
}

/// `ByteOrder::read_u16` of `NetworkEndian`: the first two bytes of `buf` read as a
/// number with the high byte first. It panics on a shorter buffer.
#[verifier::external_body]
fn read_u16(buf: &[u8]) -> (n: u16)
    requires
        buf.len() >= 2,
    ensures
        n == u16_be(buf@, 0),
{
    NetworkEndian::read_u16(buf)
}

/// `ByteOrder::read_u32` of `NetworkEndian`: the first four bytes of `buf` read as a
/// number with the highest byte first. It panics on a shorter buffer.
#[verifier::external_body]
fn read_u32(buf: &[u8]) -> (n: u32)
    requires
        buf.len() >= 4,
    ensures
        n == u32_be(buf@, 0),
{
    NetworkEndian::read_u32(buf)
}

/// `ByteOrder::write_u16` of `NetworkEndian`: the first two bytes of `buf` become `n`
/// with the high byte first, the others stay. It panics on a shorter buffer.
#[verifier::external_body]
fn write_u16(buf: &mut [u8], n: u16)
    requires
        old(buf).len() >= 2,
    ensures
        final(buf)@ == splice(old(buf)@, 0, u16_be_bytes(n)),
{
    NetworkEndian::write_u16(buf, n)
}

/// `ByteOrder::write_u32` of `NetworkEndian`: the first four bytes of `buf` become `n`
/// with the highest byte first, the others stay. It panics on a shorter buffer.
#[verifier::external_body]
fn write_u32(buf: &mut [u8], n: u32)
    requires
        old(buf).len() >= 4,
    ensures
        final(buf)@ == splice(old(buf)@, 0, u32_be_bytes(n)),
{
    NetworkEndian::write_u32(buf, n)
}

/// Reads the big-endian `u16` at `at`.
pub fn read_u16_at(buf: &[u8], at: usize) -> (n: u16)
    requires
        at + 2 <= buf.len(),
    ensures
        n == u16_be(buf@, at as int),
{
    let window = &buf[at..at + 2];
    read_u16(window)
}

/// Reads the big-endian `u32` at `at`.
pub fn read_u32_at(buf: &[u8], at: usize) -> (n: u32)
    requires
        at + 4 <= buf.len(),
    ensures
        n == u32_be(buf@, at as int),
{
    let window = &buf[at..at + 4];
    read_u32(window)
}

/// Writes `n` at `at`, the high byte first.
pub fn write_u16_at(buf: &mut [u8], at: usize, n: u16)
    requires
        at + 2 <= old(buf).len(),
    ensures
        final(buf)@ == splice(old(buf)@, at as int, u16_be_bytes(n)),
{
    let (head, tail) = buf.split_at_mut(at);
    write_u16(tail, n);
    proof {
        assert(final(buf)@ =~= splice(old(buf)@, at as int, u16_be_bytes(n)));
    }
}

/// Writes `n` at `at`, the highest byte first.
pub fn write_u32_at(buf: &mut [u8], at: usize, n: u32)
    requires
        at + 4 <= old(buf).len(),
    ensures
        final(buf)@ == splice(old(buf)@, at as int, u32_be_bytes(n)),
{
    let (head, tail) = buf.split_at_mut(at);
    write_u32(tail, n);
    proof {
        assert(final(buf)@ =~= splice(old(buf)@, at as int, u32_be_bytes(n)));
    }
}

/// Copies `data` into `buf` from `at` on.
pub fn write_bytes_at(buf: &mut [u8], at: usize, data: &[u8])
    requires
        at + data.len() <= old(buf).len(),
    ensures
        final(buf)@ == splice(old(buf)@, at as int, data@),
{
    let mut i: usize = 0;
    while i < data.len()
        invariant
            i <= data@.len(),
            at + data.len() <= buf.len(),
            buf@.len() == old(buf)@.len(),
            buf@ == splice(old(buf)@, at as int, data@.subrange(0, i as int)),
        decreases data@.len() - i,
    {
        buf[at + i] = data[i];
        i += 1;
        proof {
            assert(buf@ =~= splice(old(buf)@, at as int, data@.subrange(0, i as int)));
        }
    }
    proof {
        assert(data@.subrange(0, i as int) =~= data@);
    }
}

/// Writing `more` right behind `done` is writing the two as one.
pub proof fn lemma_splice_chain(s: Seq<u8>, at: int, done: Seq<u8>, more: Seq<u8>)
    requires
        0 <= at,
        at + done.len() + more.len() <= s.len(),
    ensures
        splice(splice(s, at, done), at + done.len(), more) == splice(s, at, done + more),
{
    assert(splice(splice(s, at, done), at + done.len(), more) =~= splice(s, at, done + more));
}

/// Whether two slices hold the same bytes.
pub fn bytes_eq(a: &[u8], b: &[u8]) -> (same: bool)
    ensures
        same == (a@ == b@),
{
    if a.len() != b.len() {
        return false;
    }
    let mut i: usize = 0;
    while i < a.len()
        invariant
            i <= a.len() == b.len(),
            a@.take(i as int) == b@.take(i as int),
        decreases a.len() - i,
    {
        if a[i] != b[i] {
            return false;
        }
        i += 1;
        proof {
            assert(a@.take(i as int) =~= a@.take(i - 1).push(a@[i - 1]));
            assert(b@.take(i as int) =~= b@.take(i - 1).push(b@[i - 1]));
        }
    }
    proof {
        assert(a@.take(a.len() as int) =~= a@);
        assert(b@.take(b.len() as int) =~= b@);
    }
    true
}

/// The number read back from what was written is the number written.
pub proof fn lemma_u16_be_roundtrip(n: u16)
    ensures
        u16_be(u16_be_bytes(n), 0) == n,
        u16_be_bytes(n).len() == 2,
{
}

/// The number read back from what was written is the number written.
pub proof fn lemma_u32_be_roundtrip(n: u32)
    ensures
        u32_be(u32_be_bytes(n), 0) == n,
        u32_be_bytes(n).len() == 4,
{
}

/// Four bytes taken as the digits of a number are the digits of that number.
proof fn lemma_u32_digits(a: u8, b: u8, c: u8, d: u8)
    ensures
        ({
            let n = a as int * 0x100_0000 + b as int * 0x1_0000 + c as int * 0x100 + d as int;
            &&& 0 <= n <= u32::MAX
            &&& n / 0x100_0000 == a
            &&& n / 0x1_0000 % 0x100 == b
            &&& n / 0x100 % 0x100 == c
            &&& n % 0x100 == d
        }),
{
    let n = a as int * 0x100_0000 + b as int * 0x1_0000 + c as int * 0x100 + d as int;
    let abc = a as int * 0x1_0000 + b as int * 0x100 + c as int;
    let ab = a as int * 0x100 + b as int;
    lemma_fundamental_div_mod_converse(n, 0x100, abc, d as int);
    lemma_fundamental_div_mod_converse(abc, 0x100, ab, c as int);
    lemma_fundamental_div_mod_converse(n, 0x1_0000, ab, c as int * 0x100 + d as int);
    lemma_fundamental_div_mod_converse(ab, 0x100, a as int, b as int);
    lemma_fundamental_div_mod_converse(
        n,
        0x100_0000,
        a as int,
        b as int * 0x1_0000 + c as int * 0x100 + d as int,
    );
}

/// The two bytes at `at` are the bytes that spell the number read there.
pub proof fn lemma_u16_bytes_of_window(s: Seq<u8>, at: int)
    requires
        0 <= at,
        at + 2 <= s.len(),
    ensures
        s.subrange(at, at + 2) == u16_be_bytes(u16_be(s, at)),
{
    assert(s.subrange(at, at + 2) =~= u16_be_bytes(u16_be(s, at)));
}

/// The four bytes at `at` are the bytes that spell the number read there.
pub proof fn lemma_u32_bytes_of_window(s: Seq<u8>, at: int)
    requires
        0 <= at,
        at + 4 <= s.len(),
    ensures
        s.subrange(at, at + 4) == u32_be_bytes(u32_be(s, at)),
{
    lemma_u32_digits(s[at], s[at + 1], s[at + 2], s[at + 3]);
    let n = u32_be(s, at);
    let w = s.subrange(at, at + 4);
    let b = u32_be_bytes(n);
    assert(w.len() == 4 && b.len() == 4);
    assert(w[0] == b[0]);
    assert(w[1] == b[1]);
    assert(w[2] == b[2]);
    assert(w[3] == b[3]);
    assert(w =~= b);
}

} // verus!

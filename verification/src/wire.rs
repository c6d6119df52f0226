//! Fixed-width integers on the wire: what their bytes are, and how they are
//! written and read.
use byteorder::{BigEndian, ReadBytesExt};
use std::io::Cursor;
use vstd::arithmetic::power::pow;
use vstd::prelude::*;

verus! {

/// The `n` low bytes of `x`, least significant byte first.
pub open spec fn le_bytes(x: nat, n: nat) -> Seq<u8>
    decreases n,
{
    if n == 0 {
        Seq::empty()
    } else {
        seq![(x % 256) as u8] + le_bytes(x / 256, (n - 1) as nat)
    }
}

/// The number that `s` stands for, least significant byte first.
pub open spec fn le_value(s: Seq<u8>) -> nat
    decreases s.len(),
{
    if s.len() == 0 {
        0
    } else {
        s[0] as nat + 256 * le_value(s.drop_first())
    }
}

/// The number that `s` stands for, most significant byte first.
pub open spec fn be_value(s: Seq<u8>) -> nat
    decreases s.len(),
{
    if s.len() == 0 {
        0
    } else {
        256 * be_value(s.drop_last()) + s.last() as nat
    }
}

/// The `n` low bytes of `x`, most significant byte first.
pub open spec fn be_bytes(x: nat, n: nat) -> Seq<u8>
    decreases n,
{
    if n == 0 {
        Seq::empty()
    } else {
        be_bytes(x / 256, (n - 1) as nat).push((x % 256) as u8)
    }
}

/// 64-bit words one after the other, each least significant byte first.
pub open spec fn le_words(words: Seq<u64>) -> Seq<u8>
    decreases words.len(),
{
    if words.len() == 0 {
        Seq::empty()
    } else {
        le_words(words.drop_last()) + le_bytes(words.last() as nat, 8)
    }
}

pub proof fn lemma_le_bytes_len(x: nat, n: nat)
    ensures
        le_bytes(x, n).len() == n,
    decreases n,
{
    if n > 0 {
        lemma_le_bytes_len(x / 256, (n - 1) as nat);
    }
}

/// Reading the bytes of a number back gives the number, wherever it fits in the
/// width it was written with.
pub proof fn lemma_le_round_trip(x: nat, n: nat)
    requires
        x < pow(256, n),
    ensures
        le_value(le_bytes(x, n)) == x,
    decreases n,
{
    reveal(pow);
    if n > 0 {
        let m = (n - 1) as nat;
        assert(pow(256, n) == 256 * pow(256, m));
        assert(x / 256 < pow(256, m)) by (nonlinear_arith)
            requires
                x < 256 * pow(256, m),
        ;
        lemma_le_round_trip(x / 256, m);
        assert(le_bytes(x, n).drop_first() =~= le_bytes(x / 256, m));
    }
}

/// Every 64-bit value survives being written as eight bytes.
pub proof fn lemma_le_u64_round_trip(x: u64)
    ensures
        le_value(le_bytes(x as nat, 8)) == x,
{
    reveal_with_fuel(pow, 9);
    assert(pow(256, 8) == 0x1_0000_0000_0000_0000);
    lemma_le_round_trip(x as nat, 8);
}

/// Reading the bytes of a number back gives the number, most significant byte first
/// too, wherever it fits in the width it was written with.
pub proof fn lemma_be_round_trip(x: nat, n: nat)
    requires
        x < pow(256, n),
    ensures
        be_bytes(x, n).len() == n,
        be_value(be_bytes(x, n)) == x,
    decreases n,
{
    reveal(pow);
    if n > 0 {
        let m = (n - 1) as nat;
        assert(pow(256, n) == 256 * pow(256, m));
        assert(x / 256 < pow(256, m)) by (nonlinear_arith)
            requires
                x < 256 * pow(256, m),
        ;
        lemma_be_round_trip(x / 256, m);
        assert(be_bytes(x, n).drop_last() =~= be_bytes(x / 256, m));
    }
}

/// Numbers of two, four, six and eight bytes survive being written most significant
/// byte first.
pub proof fn lemma_be_fields_round_trip(a: nat, b: nat, c: nat, d: nat)
    requires
        a < 0x1_0000,
        b < 0x1_0000_0000,
        c < 0x1_0000_0000_0000,
        d < 0x1_0000_0000_0000_0000,
    ensures
        be_bytes(a, 2).len() == 2,
        be_value(be_bytes(a, 2)) == a,
        be_bytes(b, 4).len() == 4,
        be_value(be_bytes(b, 4)) == b,
        be_bytes(c, 6).len() == 6,
        be_value(be_bytes(c, 6)) == c,
        be_bytes(d, 8).len() == 8,
        be_value(be_bytes(d, 8)) == d,
{
    reveal_with_fuel(pow, 9);
    assert(pow(256, 2) == 0x1_0000);
    assert(pow(256, 4) == 0x1_0000_0000);
    assert(pow(256, 6) == 0x1_0000_0000_0000);
    assert(pow(256, 8) == 0x1_0000_0000_0000_0000);
    lemma_be_round_trip(a, 2);
    lemma_be_round_trip(b, 4);
    lemma_be_round_trip(c, 6);
    lemma_be_round_trip(d, 8);
}

pub proof fn lemma_le_words_len(words: Seq<u64>)
    ensures
        le_words(words).len() == 8 * words.len(),
    decreases words.len(),
{
    if words.len() > 0 {
        lemma_le_words_len(words.drop_last());
        lemma_le_bytes_len(words.last() as nat, 8);
    }
}

/// A run of words reads back word by word.
pub proof fn lemma_le_words_read_back(words: Seq<u64>, k: int)
    requires
        0 <= k < words.len(),
    ensures
        le_words(words).len() == 8 * words.len(),
        le_value(le_words(words).subrange(8 * k, 8 * k + 8)) == words[k],
    decreases words.len(),
{
    lemma_le_words_len(words);
    let front = words.drop_last();
    lemma_le_words_len(front);
    lemma_le_bytes_len(words.last() as nat, 8);
    if k == words.len() - 1 {
        assert(le_words(words).subrange(8 * k, 8 * k + 8) =~= le_bytes(words.last() as nat, 8));
        lemma_le_u64_round_trip(words.last());
    } else {
        lemma_le_words_read_back(front, k);
        assert(le_words(words).subrange(8 * k, 8 * k + 8) =~= le_words(front).subrange(
            8 * k,
            8 * k + 8,
        ));
    }
}

/// Byte by byte, what two, four and eight bytes stand for: each place counts 256 times
/// the one before it, from the first on where the least significant byte comes first,
/// from the last on where the most significant one does.
pub proof fn lemma_places_count(s: Seq<u8>)
    ensures
        s.len() == 2 ==> le_value(s) == s[0] + 0x100 * s[1],
        s.len() == 2 ==> be_value(s) == s[1] + 0x100 * s[0],
        s.len() == 4 ==> le_value(s) == s[0] + 0x100 * s[1] + 0x1_0000 * s[2] + 0x100_0000 * s[3],
        s.len() == 4 ==> be_value(s) == s[3] + 0x100 * s[2] + 0x1_0000 * s[1] + 0x100_0000 * s[0],
        s.len() == 6 ==> be_value(s) == s[5] + 0x100 * s[4] + 0x1_0000 * s[3] + 0x100_0000 * s[2]
            + 0x1_0000_0000 * s[1] + 0x100_0000_0000 * s[0],
        s.len() == 8 ==> le_value(s) == s[0] + 0x100 * s[1] + 0x1_0000 * s[2] + 0x100_0000 * s[3]
            + 0x1_0000_0000 * s[4] + 0x100_0000_0000 * s[5] + 0x1_0000_0000_0000 * s[6]
            + 0x100_0000_0000_0000 * s[7],
        s.len() == 8 ==> be_value(s) == s[7] + 0x100 * s[6] + 0x1_0000 * s[5] + 0x100_0000 * s[4]
            + 0x1_0000_0000 * s[3] + 0x100_0000_0000 * s[2] + 0x1_0000_0000_0000 * s[1]
            + 0x100_0000_0000_0000 * s[0],
{
    reveal_with_fuel(le_value, 9);
    reveal_with_fuel(be_value, 9);
}

/// Appends the `n` low bytes of `x`, least significant byte first.
pub(crate) fn push_le(out: &mut Vec<u8>, x: u64, n: usize)
    ensures
        final(out)@ == old(out)@ + le_bytes(x as nat, n as nat),
{
    let mut rest: u64 = x;
    let mut i: usize = 0;
    while i < n
        invariant
            i <= n,
            old(out)@ + le_bytes(x as nat, n as nat) == out@ + le_bytes(rest as nat, (n - i) as nat),
        decreases n - i,
    {
        let ghost before = out@;
        out.push((rest % 256) as u8);
        proof {
            assert(before + le_bytes(rest as nat, (n - i) as nat) =~= out@ + le_bytes(
                rest as nat / 256,
                (n - i - 1) as nat,
            ));
        }
        rest = rest / 256;
        i = i + 1;
    }
    assert(out@ + le_bytes(rest as nat, 0) =~= out@);
}

/// Overwrites `n` bytes of `buf`, from position `at` on, with the `n` low bytes
/// of `x`, least significant byte first.
pub(crate) fn put_le<const N: usize>(buf: &mut [u8; N], at: usize, x: u64, n: usize)
    requires
        at + n <= N,
    ensures
        final(buf)@.subrange(0, at + n) == old(buf)@.subrange(0, at as int) + le_bytes(
            x as nat,
            n as nat,
        ),
        final(buf)@.subrange(at + n, N as int) == old(buf)@.subrange(at + n, N as int),
{
    let mut rest: u64 = x;
    let mut i: usize = 0;
    while i < n
        invariant
            i <= n,
            at + n <= N,
            old(buf)@.subrange(0, at as int) + le_bytes(x as nat, n as nat) == buf@.subrange(
                0,
                at + i,
            ) + le_bytes(rest as nat, (n - i) as nat),
            buf@.subrange(at + n, N as int) == old(buf)@.subrange(at + n, N as int),
        decreases n - i,
    {
        let ghost before = buf@;
        buf[at + i] = (rest % 256) as u8;
        proof {
            assert(before.subrange(0, at + i) + le_bytes(rest as nat, (n - i) as nat)
                =~= buf@.subrange(0, at + i + 1) + le_bytes(rest as nat / 256, (n - i - 1) as nat));
            assert(buf@.subrange(at + n, N as int) =~= before.subrange(at + n, N as int));
        }
        rest = rest / 256;
        i = i + 1;
    }
    assert(buf@.subrange(0, at + n) + le_bytes(rest as nat, 0) =~= buf@.subrange(0, at + n));
}

/// `byteorder::ReadBytesExt::read_u16` with `BigEndian`, on a cursor at the
/// start of `buf`: the first two bytes as a number, most significant first. With
/// two bytes there the read cannot fail.
#[verifier::external_body]
pub(crate) fn read_be_u16(buf: &[u8]) -> (x: u16)
    requires
        buf@.len() >= 2,
    ensures
        x as nat == be_value(buf@.subrange(0, 2)),
{
    Cursor::new(buf).read_u16::<BigEndian>().unwrap()
}

/// `byteorder::ReadBytesExt::read_u32` with `BigEndian`, on a cursor at the
/// start of `buf`: the first four bytes as a number, most significant first. With
/// four bytes there the read cannot fail.
#[verifier::external_body]
pub(crate) fn read_be_u32(buf: &[u8]) -> (x: u32)
    requires
        buf@.len() >= 4,
    ensures
        x as nat == be_value(buf@.subrange(0, 4)),
{
    Cursor::new(buf).read_u32::<BigEndian>().unwrap()
}

/// `byteorder::ReadBytesExt::read_u64` with `BigEndian`, on a cursor at the
/// start of `buf`: the first eight bytes as a number, most significant first. With
/// eight bytes there the read cannot fail.
#[verifier::external_body]
pub(crate) fn read_be_u64(buf: &[u8]) -> (x: u64)
    requires
        buf@.len() >= 8,
    ensures
        x as nat == be_value(buf@.subrange(0, 8)),
{
    Cursor::new(buf).read_u64::<BigEndian>().unwrap()
}

} // verus!

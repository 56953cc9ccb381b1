//! 32-byte words: the fixed-width building blocks of the canonical encoding.
//!
//! Every field of the encoding occupies one 32-byte word, big-endian and
//! zero-padded on the left, in the style of Ethereum ABI encoding.

use vstd::prelude::*;

verus! {

/// A sequence of `n` zero bytes, used to pad values to 32-byte words.
pub open spec fn zero_bytes(n: nat) -> Seq<u8> {
    Seq::new(n, |i: int| 0u8)
}

/// The four big-endian bytes of a 32-bit unsigned integer.
pub open spec fn be_bytes_u32(x: u32) -> Seq<u8> {
    seq![
        ((x >> 24) & 0xff) as u8,
        ((x >> 16) & 0xff) as u8,
        ((x >> 8) & 0xff) as u8,
        (x & 0xff) as u8,
    ]
}

/// A 32-bit unsigned integer as a word: 28 zero bytes, then big-endian.
pub open spec fn word_of_u32(x: u32) -> Seq<u8> {
    zero_bytes(28) + be_bytes_u32(x)
}

/// The eight big-endian bytes of a 64-bit unsigned integer.
pub open spec fn be_bytes_u64(x: u64) -> Seq<u8> {
    seq![
        ((x >> 56) & 0xff) as u8,
        ((x >> 48) & 0xff) as u8,
        ((x >> 40) & 0xff) as u8,
        ((x >> 32) & 0xff) as u8,
        ((x >> 24) & 0xff) as u8,
        ((x >> 16) & 0xff) as u8,
        ((x >> 8) & 0xff) as u8,
        (x & 0xff) as u8,
    ]
}

/// A 64-bit unsigned integer as a word: 24 zero bytes, then big-endian.
pub open spec fn word_of_u64(x: u64) -> Seq<u8> {
    zero_bytes(24) + be_bytes_u64(x)
}

/// A sequence length as a word. A length at or above 2^64 cannot occur in an
/// encoding that fits in addressable memory; it is reduced modulo 2^64 so that
/// the word stays well defined for every mathematical sequence.
pub open spec fn word_of_len(n: nat) -> Seq<u8> {
    word_of_u64((n % 0x1_0000_0000_0000_0000) as u64)
}

/// A boolean as a word: 31 zero bytes, then 1 for true and 0 for false.
pub open spec fn word_of_bool(b: bool) -> Seq<u8> {
    zero_bytes(31).push(if b { 1u8 } else { 0u8 })
}

/// A 20-byte voter identity as a word: 12 zero bytes, then the identity.
pub open spec fn word_of_addr(a: Seq<u8>) -> Seq<u8> {
    zero_bytes(12) + a
}

/// Appends `n` zero bytes.
pub fn push_zero_bytes(out: &mut Vec<u8>, n: usize)
    ensures
        final(out)@ == old(out)@ + zero_bytes(n as nat),
{
    proof {
        assert(old(out)@ + zero_bytes(0) =~= old(out)@);
    }
    let mut i: usize = 0;
    while i < n
        invariant
            i <= n,
            out@ == old(out)@ + zero_bytes(i as nat),
        decreases n - i,
    {
        out.push(0u8);
        i = i + 1;
        proof {
            assert(old(out)@ + zero_bytes(i as nat) =~= (old(out)@ + zero_bytes(
                (i - 1) as nat,
            )).push(0u8));
        }
    }
}

/// Appends a 32-bit unsigned integer as one 32-byte word.
pub fn push_word_u32(out: &mut Vec<u8>, x: u32)
    ensures
        final(out)@ == old(out)@ + word_of_u32(x),
{
    push_zero_bytes(out, 28);
    out.push(((x >> 24) & 0xff) as u8);
    out.push(((x >> 16) & 0xff) as u8);
    out.push(((x >> 8) & 0xff) as u8);
    out.push((x & 0xff) as u8);
    proof {
        assert(out@ =~= old(out)@ + word_of_u32(x));
    }
}

/// Appends a 64-bit unsigned integer as one 32-byte word.
pub fn push_word_u64(out: &mut Vec<u8>, x: u64)
    ensures
        final(out)@ == old(out)@ + word_of_u64(x),
{
    push_zero_bytes(out, 24);
    out.push(((x >> 56) & 0xff) as u8);
    out.push(((x >> 48) & 0xff) as u8);
    out.push(((x >> 40) & 0xff) as u8);
    out.push(((x >> 32) & 0xff) as u8);
    out.push(((x >> 24) & 0xff) as u8);
    out.push(((x >> 16) & 0xff) as u8);
    out.push(((x >> 8) & 0xff) as u8);
    out.push((x & 0xff) as u8);
    proof {
        assert(out@ =~= old(out)@ + word_of_u64(x));
    }
}

/// Appends a boolean as one 32-byte word.
pub fn push_word_bool(out: &mut Vec<u8>, b: bool)
    ensures
        final(out)@ == old(out)@ + word_of_bool(b),
{
    push_zero_bytes(out, 31);
    out.push(if b { 1u8 } else { 0u8 });
    proof {
        assert(out@ =~= old(out)@ + word_of_bool(b));
    }
}

/// Appends a 20-byte voter identity as one 32-byte word.
pub fn push_word_addr(out: &mut Vec<u8>, a: &Vec<u8>)
    requires
        a@.len() == 20,
    ensures
        final(out)@ == old(out)@ + word_of_addr(a@),
{
    push_zero_bytes(out, 12);
    let mut j: usize = 0;
    while j < 20
        invariant
            j <= 20,
            a@.len() == 20,
            out@ == old(out)@ + zero_bytes(12) + a@.take(j as int),
        decreases 20 - j,
    {
        out.push(a[j]);
        j = j + 1;
        proof {
            assert(old(out)@ + zero_bytes(12) + a@.take(j as int) =~= (old(out)@ + zero_bytes(12)
                + a@.take(j - 1)).push(a@[j - 1]));
        }
    }
    proof {
        assert(out@ =~= old(out)@ + word_of_addr(a@));
    }
}

/// Appends every byte of `src`.
pub fn push_bytes(out: &mut Vec<u8>, src: &Vec<u8>)
    ensures
        final(out)@ == old(out)@ + src@,
{
    let n: usize = src.len();
    let mut i: usize = 0;
    while i < n
        invariant
            i <= n,
            n == src@.len(),
            out@ == old(out)@ + src@.take(i as int),
        decreases n - i,
    {
        out.push(src[i]);
        i = i + 1;
        proof {
            assert(old(out)@ + src@.take(i as int) =~= (old(out)@ + src@.take(i - 1)).push(
                src@[i - 1],
            ));
        }
    }
    proof {
        assert(out@ =~= old(out)@ + src@);
    }
}

/// Two 32-bit integers with the same big-endian bytes are equal.
pub proof fn lemma_be_bytes_u32_injective(x: u32, y: u32)
    requires
        be_bytes_u32(x) == be_bytes_u32(y),
    ensures
        x == y,
{
    assert(be_bytes_u32(x)[0] == be_bytes_u32(y)[0]);
    assert(be_bytes_u32(x)[1] == be_bytes_u32(y)[1]);
    assert(be_bytes_u32(x)[2] == be_bytes_u32(y)[2]);
    assert(be_bytes_u32(x)[3] == be_bytes_u32(y)[3]);
    assert(x == y) by (bit_vector)
        requires
            ((x >> 24) & 0xff) as u8 == ((y >> 24) & 0xff) as u8,
            ((x >> 16) & 0xff) as u8 == ((y >> 16) & 0xff) as u8,
            ((x >> 8) & 0xff) as u8 == ((y >> 8) & 0xff) as u8,
            (x & 0xff) as u8 == (y & 0xff) as u8,
    ;
}

/// Two 64-bit integers with the same big-endian bytes are equal.
pub proof fn lemma_be_bytes_u64_injective(x: u64, y: u64)
    requires
        be_bytes_u64(x) == be_bytes_u64(y),
    ensures
        x == y,
{
    assert(be_bytes_u64(x)[0] == be_bytes_u64(y)[0]);
    assert(be_bytes_u64(x)[1] == be_bytes_u64(y)[1]);
    assert(be_bytes_u64(x)[2] == be_bytes_u64(y)[2]);
    assert(be_bytes_u64(x)[3] == be_bytes_u64(y)[3]);
    assert(be_bytes_u64(x)[4] == be_bytes_u64(y)[4]);
    assert(be_bytes_u64(x)[5] == be_bytes_u64(y)[5]);
    assert(be_bytes_u64(x)[6] == be_bytes_u64(y)[6]);
    assert(be_bytes_u64(x)[7] == be_bytes_u64(y)[7]);
    assert(x == y) by (bit_vector)
        requires
            ((x >> 56) & 0xff) as u8 == ((y >> 56) & 0xff) as u8,
            ((x >> 48) & 0xff) as u8 == ((y >> 48) & 0xff) as u8,
            ((x >> 40) & 0xff) as u8 == ((y >> 40) & 0xff) as u8,
            ((x >> 32) & 0xff) as u8 == ((y >> 32) & 0xff) as u8,
            ((x >> 24) & 0xff) as u8 == ((y >> 24) & 0xff) as u8,
            ((x >> 16) & 0xff) as u8 == ((y >> 16) & 0xff) as u8,
            ((x >> 8) & 0xff) as u8 == ((y >> 8) & 0xff) as u8,
            (x & 0xff) as u8 == (y & 0xff) as u8,
    ;
}

/// Reassembling a 32-bit integer from four bytes inverts `be_bytes_u32`.
pub proof fn lemma_be_bytes_u32_of(b0: u8, b1: u8, b2: u8, b3: u8)
    ensures
        be_bytes_u32(
            ((b0 as u32) << 24) | ((b1 as u32) << 16) | ((b2 as u32) << 8) | (b3 as u32),
        ) == seq![b0, b1, b2, b3],
{
    let x: u32 = ((b0 as u32) << 24) | ((b1 as u32) << 16) | ((b2 as u32) << 8) | (b3 as u32);
    assert(((x >> 24) & 0xff) as u8 == b0 && ((x >> 16) & 0xff) as u8 == b1 && ((x >> 8) & 0xff)
        as u8 == b2 && (x & 0xff) as u8 == b3) by (bit_vector)
        requires
            x == ((b0 as u32) << 24) | ((b1 as u32) << 16) | ((b2 as u32) << 8) | (b3 as u32),
    ;
    assert(be_bytes_u32(x) =~= seq![b0, b1, b2, b3]);
}

/// Reassembling a 64-bit integer from eight bytes inverts `be_bytes_u64`.
pub proof fn lemma_be_bytes_u64_of(b0: u8, b1: u8, b2: u8, b3: u8, b4: u8, b5: u8, b6: u8, b7: u8)
    ensures
        be_bytes_u64(
            ((b0 as u64) << 56) | ((b1 as u64) << 48) | ((b2 as u64) << 40) | ((b3 as u64) << 32)
                | ((b4 as u64) << 24) | ((b5 as u64) << 16) | ((b6 as u64) << 8) | (b7 as u64),
        ) == seq![b0, b1, b2, b3, b4, b5, b6, b7],
{
    let x: u64 = ((b0 as u64) << 56) | ((b1 as u64) << 48) | ((b2 as u64) << 40) | ((b3 as u64)
        << 32) | ((b4 as u64) << 24) | ((b5 as u64) << 16) | ((b6 as u64) << 8) | (b7 as u64);
    assert(((x >> 56) & 0xff) as u8 == b0 && ((x >> 48) & 0xff) as u8 == b1 && ((x >> 40) & 0xff)
        as u8 == b2 && ((x >> 32) & 0xff) as u8 == b3 && ((x >> 24) & 0xff) as u8 == b4 && ((x
        >> 16) & 0xff) as u8 == b5 && ((x >> 8) & 0xff) as u8 == b6 && (x & 0xff) as u8 == b7)
        by (bit_vector)
        requires
            x == ((b0 as u64) << 56) | ((b1 as u64) << 48) | ((b2 as u64) << 40) | ((b3 as u64)
                << 32) | ((b4 as u64) << 24) | ((b5 as u64) << 16) | ((b6 as u64) << 8) | (
            b7 as u64),
    ;
    assert(be_bytes_u64(x) =~= seq![b0, b1, b2, b3, b4, b5, b6, b7]);
}

/// Two 32-bit integers with the same word are equal.
pub proof fn lemma_word_of_u32_injective(x: u32, y: u32)
    requires
        word_of_u32(x) == word_of_u32(y),
    ensures
        x == y,
{
    assert(be_bytes_u32(x) =~= be_bytes_u32(y)) by {
        assert(forall|i: int|
            0 <= i < 4 ==> be_bytes_u32(x)[i] == word_of_u32(x)[28 + i] && be_bytes_u32(y)[i]
                == word_of_u32(y)[28 + i]);
    }
    lemma_be_bytes_u32_injective(x, y);
}

/// Two 64-bit integers with the same word are equal.
pub proof fn lemma_word_of_u64_injective(x: u64, y: u64)
    requires
        word_of_u64(x) == word_of_u64(y),
    ensures
        x == y,
{
    assert(be_bytes_u64(x) =~= be_bytes_u64(y)) by {
        assert(forall|i: int|
            0 <= i < 8 ==> be_bytes_u64(x)[i] == word_of_u64(x)[24 + i] && be_bytes_u64(y)[i]
                == word_of_u64(y)[24 + i]);
    }
    lemma_be_bytes_u64_injective(x, y);
}

/// Two booleans with the same word are equal.
pub proof fn lemma_word_of_bool_injective(x: bool, y: bool)
    requires
        word_of_bool(x) == word_of_bool(y),
    ensures
        x == y,
{
    assert(zero_bytes(31).len() == 31);
    assert(word_of_bool(x)[31] == (if x {
        1u8
    } else {
        0u8
    }));
    assert(word_of_bool(y)[31] == (if y {
        1u8
    } else {
        0u8
    }));
}

/// Two 20-byte identities with the same word are equal.
pub proof fn lemma_word_of_addr_injective(a: Seq<u8>, b: Seq<u8>)
    requires
        a.len() == 20,
        b.len() == 20,
        word_of_addr(a) == word_of_addr(b),
    ensures
        a == b,
{
    assert(a =~= b) by {
        assert(forall|i: int|
            0 <= i < 20 ==> a[i] == word_of_addr(a)[12 + i] && b[i] == word_of_addr(b)[12 + i]);
    }
}

} // verus!

//! Little-endian conversions between byte sequences and 64-bit words.
//!
//! BLAKE2b reads each 128-byte message block as sixteen little-endian
//! 64-bit words and serialises the digest as the little-endian bytes of
//! the chaining state. Both directions are written as plain arithmetic
//! (a word is a sum of bytes weighted by powers of 256), so the
//! executable code and the specification share one definition.

use vstd::prelude::*;

verus! {

/// 256 raised to `j`, for the byte positions `0..8` of a 64-bit word.
pub open spec fn pow256(j: int) -> int {
    if j == 0 {
        1
    } else if j == 1 {
        0x100
    } else if j == 2 {
        0x1_0000
    } else if j == 3 {
        0x100_0000
    } else if j == 4 {
        0x1_0000_0000
    } else if j == 5 {
        0x100_0000_0000
    } else if j == 6 {
        0x1_0000_0000_0000
    } else if j == 7 {
        0x100_0000_0000_0000
    } else {
        0
    }
}

/// The 64-bit word stored little-endian at byte offset `k` of `b`.
pub open spec fn le_word_at(b: Seq<u8>, k: int) -> u64 {
    (b[k] + b[k + 1] * 0x100 + b[k + 2] * 0x1_0000 + b[k + 3] * 0x100_0000 + b[k + 4] * 0x1_0000_0000
        + b[k + 5] * 0x100_0000_0000 + b[k + 6] * 0x1_0000_0000_0000 + b[k + 7]
        * 0x100_0000_0000_0000) as u64
}

/// Byte `j` (little-endian, `0 <= j < 8`) of the word `w`.
pub open spec fn word_byte(w: u64, j: int) -> u8 {
    ((w as int / pow256(j)) % 0x100) as u8
}

/// Reads the little-endian 64-bit word at byte offset `k` of `b`.
pub fn load_le_word(b: &Vec<u8>, k: usize) -> (w: u64)
    requires
        k + 8 <= b@.len(),
    ensures
        w == le_word_at(b@, k as int),
{
    let n: usize = b.len();
    (b[k] as u64) + (b[k + 1] as u64) * 0x100 + (b[k + 2] as u64) * 0x1_0000 + (b[k + 3] as u64)
        * 0x100_0000 + (b[k + 4] as u64) * 0x1_0000_0000 + (b[k + 5] as u64) * 0x100_0000_0000 + (b[
        k + 6] as u64) * 0x1_0000_0000_0000 + (b[k + 7] as u64) * 0x100_0000_0000_0000
}

/// A 128-byte block read as sixteen little-endian 64-bit words.
pub open spec fn block_words(b: Seq<u8>) -> Seq<u64> {
    Seq::new(16, |i: int| le_word_at(b, 8 * i))
}

/// `b` extended on the right with zero bytes to a full 128-byte block.
pub open spec fn pad_block(b: Seq<u8>) -> Seq<u8> {
    if b.len() >= 128 {
        b
    } else {
        b + Seq::new((128 - b.len()) as nat, |i: int| 0u8)
    }
}

/// The 64 little-endian bytes of an 8-word chaining state, word 0 first.
pub open spec fn state_bytes(h: Seq<u64>) -> Seq<u8> {
    Seq::new(64, |i: int| word_byte(h[i / 8], i % 8))
}

/// Packs the first 128 bytes of `b` into sixteen little-endian words.
pub fn block_from_bytes(b: &Vec<u8>) -> (m: [u64; 16])
    requires
        b@.len() >= 128,
    ensures
        m@ == block_words(b@.take(128)),
{
    let mut m: [u64; 16] = [0; 16];
    let mut i: usize = 0;
    while i < 16
        invariant
            i <= 16,
            b@.len() >= 128,
            forall|j: int| 0 <= j < i ==> m@[j] == le_word_at(b@, 8 * j),
        decreases 16 - i,
    {
        m[i] = load_le_word(b, 8 * i);
        i += 1;
    }
    proof {
        assert forall|j: int| 0 <= j < 16 implies m@[j] == le_word_at(b@.take(128), 8 * j) by {
            assert(m@[j] == le_word_at(b@, 8 * j));
        }
        assert(m@ =~= block_words(b@.take(128)));
    }
    m
}

/// 256 raised to `j` as an executable word, for `j < 8`.
pub fn pow256_u64(j: usize) -> (p: u64)
    requires
        j < 8,
    ensures
        p == pow256(j as int),
{
    if j == 0 {
        1
    } else if j == 1 {
        0x100
    } else if j == 2 {
        0x1_0000
    } else if j == 3 {
        0x100_0000
    } else if j == 4 {
        0x1_0000_0000
    } else if j == 5 {
        0x100_0000_0000
    } else if j == 6 {
        0x1_0000_0000_0000
    } else {
        0x100_0000_0000_0000
    }
}

/// Serialises the first `n` little-endian bytes of the chaining state.
pub fn state_to_bytes(h: &[u64; 8], n: usize) -> (out: Vec<u8>)
    requires
        n <= 64,
    ensures
        out@ == state_bytes(h@).take(n as int),
{
    let mut out: Vec<u8> = Vec::new();
    let mut i: usize = 0;
    while i < n
        invariant
            i <= n <= 64,
            out@ == state_bytes(h@).take(i as int),
        decreases n - i,
    {
        let w = h[i / 8];
        let p = pow256_u64(i % 8);
        let byte = ((w / p) % 0x100) as u8;
        out.push(byte);
        proof {
            assert(state_bytes(h@).take(i + 1) =~= state_bytes(h@).take(i as int).push(
                word_byte(h@[i as int / 8], i as int % 8),
            ));
        }
        i += 1;
    }
    out
}

} // verus!

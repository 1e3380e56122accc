//! The BLAKE2b compression engine (RFC 7693 sections 2.6, 2.7, 3.1, 3.2):
//! the mixing function G, the twelve-round schedule over the SIGMA
//! permutations, and the compression function F.

use vstd::prelude::*;
use vstd::wrapping::u64_specs;

verus! {

pub const IV0: u64 = 0x6A09E667F3BCC908;

pub const IV1: u64 = 0xBB67AE8584CAA73B;

pub const IV2: u64 = 0x3C6EF372FE94F82B;

pub const IV3: u64 = 0xA54FF53A5F1D36F1;

pub const IV4: u64 = 0x510E527FADE682D1;

pub const IV5: u64 = 0x9B05688C2B3E6C1F;

pub const IV6: u64 = 0x1F83D9ABFB41BD6B;

pub const IV7: u64 = 0x5BE0CD19137E2179;

/// Word `i` of the fixed initialisation vector (the SHA-512 IV).
pub open spec fn iv(i: int) -> u64 {
    if i == 0 {
        IV0
    } else if i == 1 {
        IV1
    } else if i == 2 {
        IV2
    } else if i == 3 {
        IV3
    } else if i == 4 {
        IV4
    } else if i == 5 {
        IV5
    } else if i == 6 {
        IV6
    } else {
        IV7
    }
}

/// The message-word permutation of round `r`, for `0 <= r < 10`; rounds 10
/// and 11 reuse rows 0 and 1, so callers pass the round number modulo 10.
pub open spec fn sigma(r: int) -> Seq<int> {
    if r == 0 {
        seq![0, 1, 2, 3, 4, 5, 6, 7, 8, 9, 10, 11, 12, 13, 14, 15]
    } else if r == 1 {
        seq![14, 10, 4, 8, 9, 15, 13, 6, 1, 12, 0, 2, 11, 7, 5, 3]
    } else if r == 2 {
        seq![11, 8, 12, 0, 5, 2, 15, 13, 10, 14, 3, 6, 7, 1, 9, 4]
    } else if r == 3 {
        seq![7, 9, 3, 1, 13, 12, 11, 14, 2, 6, 5, 10, 4, 0, 15, 8]
    } else if r == 4 {
        seq![9, 0, 5, 7, 2, 4, 10, 15, 14, 1, 11, 12, 6, 8, 3, 13]
    } else if r == 5 {
        seq![2, 12, 6, 10, 0, 11, 8, 3, 4, 13, 7, 5, 15, 14, 1, 9]
    } else if r == 6 {
        seq![12, 5, 1, 15, 14, 13, 4, 10, 0, 7, 6, 3, 9, 2, 8, 11]
    } else if r == 7 {
        seq![13, 11, 7, 14, 12, 1, 3, 9, 5, 0, 15, 4, 8, 6, 2, 10]
    } else if r == 8 {
        seq![6, 15, 14, 9, 11, 3, 0, 8, 12, 2, 13, 7, 1, 4, 10, 5]
    } else {
        seq![10, 2, 8, 4, 7, 6, 1, 5, 15, 11, 9, 14, 3, 12, 13, 0]
    }
}

/// Addition of 64-bit words modulo 2^64.
pub open spec fn wadd(x: u64, y: u64) -> u64 {
    u64_specs::wrapping_add(x, y)
}

/// Right rotation of a 64-bit word by `n` bits (RFC 7693 section 2.3).
pub open spec fn rotr(x: u64, n: u64) -> u64 {
    (x >> n) ^ (x << ((64 - n) as u64))
}

/// Circular right shift of `x` by `n` bits, for `1 <= n <= 63`.
pub fn rotate_right_64(x: u64, n: u64) -> (r: u64)
    requires
        1 <= n <= 63,
    ensures
        r == rotr(x, n),
{
    (x >> n) ^ (x << (64 - n))
}

/// The mixing function G applied at work-vector indices `a`, `b`, `c`, `d`
/// with message words `x` and `y`: the updates in the order the RFC gives
/// them, all additions modulo 2^64.
pub open spec fn mix_spec(v: Seq<u64>, a: int, b: int, c: int, d: int, x: u64, y: u64) -> Seq<u64> {
    let v1 = v.update(a, wadd(wadd(v[a], v[b]), x));
    let v2 = v1.update(d, rotr(v1[d] ^ v1[a], 32));
    let v3 = v2.update(c, wadd(v2[c], v2[d]));
    let v4 = v3.update(b, rotr(v3[b] ^ v3[c], 24));
    let v5 = v4.update(a, wadd(wadd(v4[a], v4[b]), y));
    let v6 = v5.update(d, rotr(v5[d] ^ v5[a], 16));
    let v7 = v6.update(c, wadd(v6[c], v6[d]));
    v7.update(b, rotr(v7[b] ^ v7[c], 63))
}

/// Mixes the message words `x` and `y` into the four work-vector words at
/// `a`, `b`, `c` and `d` (RFC 7693 section 3.1).
pub fn mix(v: &mut [u64; 16], a: usize, b: usize, c: usize, d: usize, x: u64, y: u64)
    requires
        a < 16,
        b < 16,
        c < 16,
        d < 16,
    ensures
        final(v)@ == mix_spec(old(v)@, a as int, b as int, c as int, d as int, x, y),
{
    v[a] = v[a].wrapping_add(v[b]).wrapping_add(x);
    v[d] = rotate_right_64(v[d] ^ v[a], 32);
    v[c] = v[c].wrapping_add(v[d]);
    v[b] = rotate_right_64(v[b] ^ v[c], 24);
    v[a] = v[a].wrapping_add(v[b]).wrapping_add(y);
    v[d] = rotate_right_64(v[d] ^ v[a], 16);
    v[c] = v[c].wrapping_add(v[d]);
    v[b] = rotate_right_64(v[b] ^ v[c], 63);
}

/// One mixing round over the work vector: the four column and four
/// diagonal applications of G, taking message words in the order of the
/// round's permutation.
pub open spec fn round_spec(v: Seq<u64>, m: Seq<u64>, r: int) -> Seq<u64> {
    let s = sigma(r % 10);
    let v1 = mix_spec(v, 0, 4, 8, 12, m[s[0]], m[s[1]]);
    let v2 = mix_spec(v1, 1, 5, 9, 13, m[s[2]], m[s[3]]);
    let v3 = mix_spec(v2, 2, 6, 10, 14, m[s[4]], m[s[5]]);
    let v4 = mix_spec(v3, 3, 7, 11, 15, m[s[6]], m[s[7]]);
    let v5 = mix_spec(v4, 0, 5, 10, 15, m[s[8]], m[s[9]]);
    let v6 = mix_spec(v5, 1, 6, 11, 12, m[s[10]], m[s[11]]);
    let v7 = mix_spec(v6, 2, 7, 8, 13, m[s[12]], m[s[13]]);
    mix_spec(v7, 3, 4, 9, 14, m[s[14]], m[s[15]])
}

/// Applies round `r` of the mixing schedule to the work vector.
fn round(v: &mut [u64; 16], m: &[u64; 16], r: usize)
    requires
        r < 12,
    ensures
        final(v)@ == round_spec(old(v)@, m@, r as int),
{
    let s = sigma_row(r % 10);
    mix(v, 0, 4, 8, 12, m[s[0]], m[s[1]]);
    mix(v, 1, 5, 9, 13, m[s[2]], m[s[3]]);
    mix(v, 2, 6, 10, 14, m[s[4]], m[s[5]]);
    mix(v, 3, 7, 11, 15, m[s[6]], m[s[7]]);
    mix(v, 0, 5, 10, 15, m[s[8]], m[s[9]]);
    mix(v, 1, 6, 11, 12, m[s[10]], m[s[11]]);
    mix(v, 2, 7, 8, 13, m[s[12]], m[s[13]]);
    mix(v, 3, 4, 9, 14, m[s[14]], m[s[15]]);
}

/// The work vector after the first `n` rounds, starting from `v`.
pub open spec fn rounds_spec(v: Seq<u64>, m: Seq<u64>, n: int) -> Seq<u64>
    decreases n,
{
    if n <= 0 {
        v
    } else {
        round_spec(rounds_spec(v, m, n - 1), m, n - 1)
    }
}

/// The work vector as compression sets it up: the chaining state beside
/// the IV, with the byte counter folded into words 12 and 13 and word 14
/// inverted on the final block.
pub open spec fn work_init(h: Seq<u64>, t_lo: u64, t_hi: u64, f: bool) -> Seq<u64> {
    Seq::new(16, |i: int|
        if i < 8 {
            h[i]
        } else if i == 12 {
            iv(4) ^ t_lo
        } else if i == 13 {
            iv(5) ^ t_hi
        } else if i == 14 && f {
            iv(6) ^ 0xFFFFFFFFFFFFFFFFu64
        } else {
            iv(i - 8)
        })
}

/// The compression function F (RFC 7693 section 3.2): the new chaining
/// state from the old one, one 16-word message block, the two words of
/// the byte counter, and the final-block flag. Opaque: callers above the
/// engine treat one compression as an atom.
#[verifier::opaque]
pub open spec fn compress_spec(h: Seq<u64>, m: Seq<u64>, t_lo: u64, t_hi: u64, f: bool) -> Seq<
    u64,
> {
    let v = rounds_spec(work_init(h, t_lo, t_hi, f), m, 12);
    Seq::new(8, |i: int| h[i] ^ v[i] ^ v[i + 8])
}

/// Compresses one message block `m` into the chaining state `h`, where
/// `t_lo` and `t_hi` are the low and high words of the byte counter after
/// this block and `f` marks the final block.
pub fn compress(h: &mut [u64; 8], m: &[u64; 16], t_lo: u64, t_hi: u64, f: bool)
    ensures
        final(h)@ == compress_spec(old(h)@, m@, t_lo, t_hi, f),
{
    let mut v: [u64; 16] = [0; 16];
    let mut i: usize = 0;
    while i < 8
        invariant
            i <= 8,
            forall|j: int| 0 <= j < i ==> v@[j] == old(h)@[j],
            h@ == old(h)@,
        decreases 8 - i,
    {
        v[i] = h[i];
        i += 1;
    }
    v[8] = IV0;
    v[9] = IV1;
    v[10] = IV2;
    v[11] = IV3;
    v[12] = IV4 ^ t_lo;
    v[13] = IV5 ^ t_hi;
    v[14] = IV6;
    v[15] = IV7;
    if f {
        v[14] = v[14] ^ 0xFFFFFFFFFFFFFFFF;
    }
    proof {
        assert(v@ =~= work_init(h@, t_lo, t_hi, f));
    }
    let mut r: usize = 0;
    while r < 12
        invariant
            r <= 12,
            v@ == rounds_spec(work_init(old(h)@, t_lo, t_hi, f), m@, r as int),
            h@ == old(h)@,
        decreases 12 - r,
    {
        round(&mut v, m, r);
        r += 1;
    }
    let mut out: [u64; 8] = [0; 8];
    let mut i: usize = 0;
    while i < 8
        invariant
            i <= 8,
            h@ == old(h)@,
            v@ == rounds_spec(work_init(old(h)@, t_lo, t_hi, f), m@, 12),
            forall|j: int| 0 <= j < i ==> out@[j] == (old(h)@[j] ^ v@[j] ^ v@[j + 8]),
        decreases 8 - i,
    {
        out[i] = h[i] ^ v[i] ^ v[i + 8];
        i += 1;
    }
    *h = out;
    proof {
        reveal(compress_spec);
        assert(h@ =~= compress_spec(old(h)@, m@, t_lo, t_hi, f));
    }
}

/// The permutation row of round `r` as executable indices.
fn sigma_row(r: usize) -> (s: [usize; 16])
    requires
        r < 10,
    ensures
        forall|j: int| 0 <= j < 16 ==> (0 <= #[trigger] s@[j] < 16 && s@[j] == sigma(r as int)[j]),
{
    match r {
        0 => [0, 1, 2, 3, 4, 5, 6, 7, 8, 9, 10, 11, 12, 13, 14, 15],
        1 => [14, 10, 4, 8, 9, 15, 13, 6, 1, 12, 0, 2, 11, 7, 5, 3],
        2 => [11, 8, 12, 0, 5, 2, 15, 13, 10, 14, 3, 6, 7, 1, 9, 4],
        3 => [7, 9, 3, 1, 13, 12, 11, 14, 2, 6, 5, 10, 4, 0, 15, 8],
        4 => [9, 0, 5, 7, 2, 4, 10, 15, 14, 1, 11, 12, 6, 8, 3, 13],
        5 => [2, 12, 6, 10, 0, 11, 8, 3, 4, 13, 7, 5, 15, 14, 1, 9],
        6 => [12, 5, 1, 15, 14, 13, 4, 10, 0, 7, 6, 3, 9, 2, 8, 11],
        7 => [13, 11, 7, 14, 12, 1, 3, 9, 5, 0, 15, 4, 8, 6, 2, 10],
        8 => [6, 15, 14, 9, 11, 3, 0, 8, 12, 2, 13, 7, 1, 4, 10, 5],
        _ => [10, 2, 8, 4, 7, 6, 1, 5, 15, 11, 9, 14, 3, 12, 13, 0],
    }
}

} // verus!

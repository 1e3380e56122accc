//! The block-level specification of the whole hash: how the chaining
//! state is seeded from the digest and key lengths, how an optional key
//! block and the interior message blocks are absorbed, and how the final
//! portion is padded, flagged and compressed. The incremental session is
//! proved against these functions.

use vstd::prelude::*;
use vstd::arithmetic::div_mod::lemma_mod_multiples_vanish;
use vstd::arithmetic::div_mod::lemma_small_mod;
use crate::bytes::block_words;
use crate::bytes::pad_block;
use crate::bytes::state_bytes;
use crate::engine::compress_spec;
use crate::engine::iv;

verus! {

/// The low 64 bits of the 128-bit byte counter `t`.
pub open spec fn lo64(t: int) -> u64 {
    (t % 0x1_0000_0000_0000_0000) as u64
}

/// The high 64 bits of the 128-bit byte counter `t`.
pub open spec fn hi64(t: int) -> u64 {
    ((t / 0x1_0000_0000_0000_0000) % 0x1_0000_0000_0000_0000) as u64
}

/// Compression with the byte counter given as one integer.
pub open spec fn compress_at(h: Seq<u64>, m: Seq<u64>, t: int, f: bool) -> Seq<u64> {
    compress_spec(h, m, lo64(t), hi64(t), f)
}

/// The first word of the parameter block: digest length, key length,
/// fanout 1 and depth 1 (the sequential mode; the other words are zero).
pub open spec fn param_word(out_len: int, key_len: int) -> u64 {
    (out_len + key_len * 0x100 + 0x0101_0000) as u64
}

/// The initial chaining state: the IV with the parameter word XORed into
/// word 0.
pub open spec fn init_state(out_len: int, key_len: int) -> Seq<u64> {
    Seq::new(8, |i: int|
        if i == 0 {
            iv(0) ^ param_word(out_len, key_len)
        } else {
            iv(i)
        })
}

/// The chaining state from which message bytes are absorbed: a supplied
/// key is zero-padded to one block and compressed with counter 128 before
/// any message data.
pub open spec fn chain_after_key(out_len: int, key: Seq<u8>) -> Seq<u64> {
    if key.len() == 0 {
        init_state(out_len, 0)
    } else {
        compress_at(
            init_state(out_len, key.len() as int),
            block_words(pad_block(key)),
            128,
            false,
        )
    }
}

/// What the byte counter starts at: one block when a key was absorbed.
pub open spec fn key_offset(key: Seq<u8>) -> int {
    if key.len() == 0 {
        0
    } else {
        128
    }
}

/// The chaining state after absorbing `blocks` — a whole number of full
/// 128-byte blocks, none of them final — with the counter having stood at
/// `t` before them.
pub open spec fn absorb_blocks(h: Seq<u64>, blocks: Seq<u8>, t: int) -> Seq<u64>
    decreases blocks.len(),
{
    if blocks.len() < 128 {
        h
    } else {
        absorb_blocks(
            compress_at(h, block_words(blocks.take(128)), t + 128, false),
            blocks.skip(128),
            t + 128,
        )
    }
}

/// The chaining state after the whole message `data`: interior blocks are
/// compressed while more than one block remains, and the last portion
/// (1 to 128 bytes, or the empty message) is zero-padded and compressed
/// with the final-block flag, the counter then standing at `t + data.len()`.
pub open spec fn hash_blocks(h: Seq<u64>, data: Seq<u8>, t: int) -> Seq<u64>
    decreases data.len(),
{
    if data.len() > 128 {
        hash_blocks(
            compress_at(h, block_words(data.take(128)), t + 128, false),
            data.skip(128),
            t + 128,
        )
    } else {
        compress_at(h, block_words(pad_block(data)), t + data.len(), true)
    }
}

/// The BLAKE2b digest of `data` under `key`, truncated to `out_len` bytes.
pub open spec fn blake2b(data: Seq<u8>, key: Seq<u8>, out_len: int) -> Seq<u8> {
    state_bytes(hash_blocks(chain_after_key(out_len, key), data, key_offset(key))).take(out_len)
}

/// Every digest has exactly the requested length.
pub proof fn lemma_digest_length(data: Seq<u8>, key: Seq<u8>, out_len: int)
    requires
        0 <= out_len <= 64,
    ensures
        blake2b(data, key, out_len).len() == out_len,
{
}

/// Determinism: any two digests of the same message, key and length are
/// equal — the digest is a function of those three alone.
pub proof fn lemma_deterministic(d1: Seq<u8>, d2: Seq<u8>, data: Seq<u8>, key: Seq<u8>, out_len: int)
    requires
        d1 == blake2b(data, key, out_len),
        d2 == blake2b(data, key, out_len),
    ensures
        d1 == d2,
{
}

/// Absorbing one more full block on the right continues from the state
/// the earlier blocks reached.
pub proof fn lemma_absorb_snoc(h: Seq<u64>, blocks: Seq<u8>, block: Seq<u8>, t: int)
    requires
        blocks.len() % 128 == 0,
        block.len() == 128,
    ensures
        absorb_blocks(h, blocks + block, t) == compress_at(
            absorb_blocks(h, blocks, t),
            block_words(block),
            t + blocks.len() + 128,
            false,
        ),
    decreases blocks.len(),
{
    if blocks.len() == 0 {
        assert(blocks + block =~= block);
        assert(block.take(128) =~= block);
        assert(absorb_blocks(h, blocks, t) == h);
        let h2 = compress_at(h, block_words(block), t + 128, false);
        assert(absorb_blocks(h2, block.skip(128), t + 128) == h2);
        assert(absorb_blocks(h, block, t) == h2);
    } else {
        if blocks.len() < 128 {
            lemma_small_mod(blocks.len(), 128);
        }
        assert(blocks.len() >= 128);
        let h2 = compress_at(h, block_words(blocks.take(128)), t + 128, false);
        assert((blocks + block).take(128) =~= blocks.take(128));
        assert((blocks + block).skip(128) =~= blocks.skip(128) + block);
        assert(blocks.skip(128).len() % 128 == 0) by {
            lemma_mod_multiples_vanish(1, blocks.len() - 128, 128);
        }
        lemma_absorb_snoc(h2, blocks.skip(128), block, t + 128);
    }
}

/// Chunking invariance at the block level: absorbing any block-aligned
/// prefix of the message as interior blocks and then compressing the
/// held-back remainder, padded and flagged final, reaches the hash of the
/// whole message. The remainder is at most one block and is empty only
/// when the whole message is.
pub proof fn lemma_hash_blocks_split(h: Seq<u64>, data: Seq<u8>, t: int, k: int)
    requires
        0 <= k <= data.len(),
        k % 128 == 0,
        data.len() - k <= 128,
        data.len() == k ==> k == 0,
    ensures
        hash_blocks(h, data, t) == compress_at(
            absorb_blocks(h, data.take(k), t),
            block_words(pad_block(data.skip(k))),
            t + data.len(),
            true,
        ),
    decreases k,
{
    if k == 0 {
        assert(data.take(0).len() < 128);
        assert(data.skip(0) =~= data);
    } else {
        if k < 128 {
            lemma_small_mod(k as nat, 128);
        }
        assert(k >= 128);
        assert(data.len() > 128);
        let h2 = compress_at(h, block_words(data.take(128)), t + 128, false);
        assert(data.take(k).take(128) =~= data.take(128));
        assert(data.take(k).skip(128) =~= data.skip(128).take(k - 128));
        assert(data.skip(k) =~= data.skip(128).skip(k - 128));
        assert((k - 128) % 128 == 0) by {
            lemma_mod_multiples_vanish(1, k - 128, 128);
        }
        lemma_hash_blocks_split(h2, data.skip(128), t + 128, k - 128);
    }
}

} // verus!

//! The incremental hash session: a chaining state, a partial-block
//! buffer, and the running byte counter, driven by `new_session`,
//! `update` and `finalize`, with the one-shot `hash` on top.
//!
//! The buffer always holds back at least one byte of a non-empty message
//! (and a full block when the message length is a multiple of 128), so
//! that the final-block flag is compressed exactly once, inside
//! `finalize`, whatever split of the message `update` saw.

use vstd::prelude::*;
use vstd::arithmetic::div_mod::lemma_fundamental_div_mod_converse;
use vstd::arithmetic::div_mod::lemma_mod_multiples_vanish;
use crate::bytes::block_from_bytes;
use crate::bytes::pad_block;
use crate::bytes::state_to_bytes;
use crate::engine::compress;
use crate::engine::IV0;
use crate::engine::IV1;
use crate::engine::IV2;
use crate::engine::IV3;
use crate::engine::IV4;
use crate::engine::IV5;
use crate::engine::IV6;
use crate::engine::IV7;
use crate::model::absorb_blocks;
use crate::model::blake2b;
use crate::model::chain_after_key;
use crate::model::hash_blocks;
use crate::model::hi64;
use crate::model::init_state;
use crate::model::key_offset;
use crate::model::lemma_absorb_snoc;
use crate::model::lemma_hash_blocks_split;
use crate::model::lo64;

verus! {

/// The ways a call can fail: a digest or key length out of range at
/// construction, or any call on a session that was already finalized.
#[derive(Clone, Copy, Debug, PartialEq, Eq)]
pub enum HashError {
    ConfigurationError,
    SessionClosedError,
}

/// An incremental BLAKE2b computation. Create one with `new_session`,
/// feed it with `update` any number of times, and take the digest with
/// `finalize`, after which every further call fails.
pub struct Session {
    h: [u64; 8],
    buf: Vec<u8>,
    t_lo: u64,
    t_hi: u64,
    digest_len: usize,
    closed: bool,
    key: Ghost<Seq<u8>>,
    fed: Ghost<Seq<u8>>,
}

impl Session {
    /// The key the session was created with (empty when unkeyed).
    pub closed spec fn key(self) -> Seq<u8> {
        self.key@
    }

    /// Every message byte fed through `update` so far.
    pub closed spec fn fed(self) -> Seq<u8> {
        self.fed@
    }

    /// The digest length the session was created with.
    pub closed spec fn digest_len(self) -> int {
        self.digest_len as int
    }

    /// Whether `finalize` already consumed the session.
    pub closed spec fn is_closed(self) -> bool {
        self.closed
    }

    /// The 128-bit byte counter, as one integer.
    spec fn counter(self) -> int {
        self.t_lo + 0x1_0000_0000_0000_0000 * self.t_hi
    }

    /// How many fed bytes have already been compressed as interior
    /// blocks; the rest sit in the buffer.
    spec fn absorbed(self) -> int {
        self.fed@.len() - self.buf@.len()
    }

    /// The state invariant, except that the buffer may exceed one block
    /// (it does transiently, in the middle of `update`).
    spec fn inv_core(self) -> bool {
        &&& 1 <= self.digest_len <= 64
        &&& self.key@.len() <= 64
        &&& self.buf@.len() <= self.fed@.len()
        &&& (self.fed@.len() > 0 ==> self.buf@.len() >= 1)
        &&& self.buf@ == self.fed@.skip(self.absorbed())
        &&& self.absorbed() % 128 == 0
        &&& self.counter() == key_offset(self.key@) + self.absorbed()
        &&& self.h@ == absorb_blocks(
            chain_after_key(self.digest_len as int, self.key@),
            self.fed@.take(self.absorbed()),
            key_offset(self.key@),
        )
        &&& key_offset(self.key@) + self.fed@.len()
            < 0x1_0000_0000_0000_0000_0000_0000_0000_0000
    }

    /// Well-formedness: what `new_session` establishes and every call
    /// preserves. A finalized session makes no further promise.
    pub closed spec fn wf(self) -> bool {
        self.is_closed() || (self.inv_core() && self.buf@.len() <= 128)
    }
}

/// The two counter words taken together read back as the integer they
/// were assembled from.
proof fn lemma_counter_words(lo: u64, hi: u64)
    ensures
        lo64(lo + 0x1_0000_0000_0000_0000 * hi) == lo,
        hi64(lo + 0x1_0000_0000_0000_0000 * hi) == hi,
{
    let c = lo + 0x1_0000_0000_0000_0000 * hi;
    lemma_fundamental_div_mod_converse(c, 0x1_0000_0000_0000_0000, hi as int, lo as int);
}

/// Adds `inc` to the two-word byte counter, carrying into the high word.
fn counter_add(lo: u64, hi: u64, inc: u64) -> (r: (u64, u64))
    requires
        lo + 0x1_0000_0000_0000_0000 * hi + inc < 0x1_0000_0000_0000_0000_0000_0000_0000_0000,
    ensures
        r.0 + 0x1_0000_0000_0000_0000 * r.1 == lo + 0x1_0000_0000_0000_0000 * hi + inc,
{
    let new_lo = lo.wrapping_add(inc);
    if new_lo < inc {
        (new_lo, hi + 1)
    } else {
        (new_lo, hi)
    }
}

/// Opens a session for a digest of `digest_len` bytes (1 to 64) under
/// `key` (at most 64 bytes; empty for plain hashing). A supplied key is
/// zero-padded to one block and compressed, with the counter at 128,
/// before any message data. Out-of-range lengths are the one
/// construction failure.
pub fn new_session(digest_len: usize, key: &Vec<u8>) -> (r: Result<Session, HashError>)
    ensures
        r is Ok <==> (1 <= digest_len <= 64 && key@.len() <= 64),
        r is Err ==> r == Err::<Session, HashError>(HashError::ConfigurationError),
        r matches Ok(s) ==> {
            &&& s.wf()
            &&& !s.is_closed()
            &&& s.fed() == Seq::<u8>::empty()
            &&& s.key() == key@
            &&& s.digest_len() == digest_len
        },
{
    if digest_len < 1 || digest_len > 64 || key.len() > 64 {
        return Err(HashError::ConfigurationError);
    }
    let p0: u64 = (digest_len as u64) + (key.len() as u64) * 0x100 + 0x0101_0000;
    let mut h: [u64; 8] = [IV0, IV1, IV2, IV3, IV4, IV5, IV6, IV7];
    h[0] = IV0 ^ p0;
    proof {
        assert(h@ =~= init_state(digest_len as int, key@.len() as int));
    }
    let mut s = Session {
        h,
        buf: Vec::new(),
        t_lo: 0,
        t_hi: 0,
        digest_len,
        closed: false,
        key: Ghost(key@),
        fed: Ghost(Seq::empty()),
    };
    if key.len() > 0 {
        let mut kb: Vec<u8> = Vec::new();
        let mut i: usize = 0;
        while i < key.len()
            invariant
                i <= key@.len() <= 64,
                kb@ == key@.take(i as int),
            decreases key@.len() - i,
        {
            kb.push(key[i]);
            i += 1;
        }
        proof {
            assert(kb@ =~= key@);
            assert(pad_block(key@).take(key@.len() as int) =~= key@);
        }
        while kb.len() < 128
            invariant
                key@.len() <= kb@.len() <= 128,
                kb@ == pad_block(key@).take(kb@.len() as int),
            decreases 128 - kb@.len(),
        {
            proof {
                assert(pad_block(key@).take(kb@.len() as int + 1) =~= pad_block(key@).take(
                    kb@.len() as int,
                ).push(0u8));
            }
            kb.push(0);
        }
        proof {
            assert(kb@ =~= pad_block(key@));
        }
        let m = block_from_bytes(&kb);
        proof {
            assert(kb@.take(128) =~= pad_block(key@));
        }
        s.t_lo = 128;
        compress(&mut s.h, &m, 128, 0, false);
        proof {
            lemma_counter_words(128, 0);
            assert(s.h@ == chain_after_key(digest_len as int, key@));
        }
    }
    proof {
        let done = s.fed@.len() - s.buf@.len();
        assert(s.fed@.take(done) =~= Seq::<u8>::empty());
        assert(s.buf@ =~= s.fed@.skip(done));
        assert(absorb_blocks(
            chain_after_key(digest_len as int, key@),
            Seq::<u8>::empty(),
            key_offset(key@),
        ) == chain_after_key(digest_len as int, key@));
    }
    Ok(s)
}

impl Session {
    /// Feeds `data` to the hash: the bytes are appended to the buffer
    /// and every full interior block — always leaving at least one byte
    /// behind for `finalize` — is compressed with the counter advanced by
    /// 128. Empty slices are a no-op. Fails only on a finalized session,
    /// which it leaves unchanged.
    pub fn update(&mut self, data: &Vec<u8>) -> (r: Result<(), HashError>)
        requires
            old(self).wf(),
            old(self).fed().len() + data@.len() + 128
                < 0x1_0000_0000_0000_0000_0000_0000_0000_0000,
        ensures
            old(self).is_closed() ==> r == Err::<(), HashError>(HashError::SessionClosedError)
                && *final(self) == *old(self),
            !old(self).is_closed() ==> {
                &&& r == Ok::<(), HashError>(())
                &&& final(self).wf()
                &&& !final(self).is_closed()
                &&& final(self).fed() == old(self).fed() + data@
                &&& final(self).key() == old(self).key()
                &&& final(self).digest_len() == old(self).digest_len()
            },
    {
        if self.closed {
            return Err(HashError::SessionClosedError);
        }
        proof {
            self.fed@ = self.fed@ + data@;
        }
        let mut i: usize = 0;
        while i < data.len()
            invariant
                i <= data@.len(),
                self.h == old(self).h,
                self.t_lo == old(self).t_lo,
                self.t_hi == old(self).t_hi,
                self.digest_len == old(self).digest_len,
                self.closed == old(self).closed,
                self.key == old(self).key,
                self.fed@ == old(self).fed@ + data@,
                self.buf@ == old(self).buf@ + data@.take(i as int),
            decreases data@.len() - i,
        {
            self.buf.push(data[i]);
            proof {
                assert(old(self).buf@ + data@.take(i + 1) =~= (old(self).buf@ + data@.take(
                    i as int,
                )).push(data@[i as int]));
            }
            i += 1;
        }
        proof {
            assert(data@.take(data@.len() as int) =~= data@);
            assert(self.buf@ =~= self.fed@.skip(self.absorbed()));
            assert(self.absorbed() == old(self).absorbed());
            assert(self.fed@.take(self.absorbed()) =~= old(self).fed@.take(old(self).absorbed()));
        }
        while self.buf.len() > 128
            invariant
                self.inv_core(),
                !self.closed,
                self.digest_len == old(self).digest_len,
                self.key == old(self).key,
                self.fed@ == old(self).fed@ + data@,
            decreases self.buf@.len(),
        {
            let ghost buf0 = self.buf@;
            let ghost f = self.fed@;
            let ghost done0 = self.absorbed();
            let ghost c0 = chain_after_key(self.digest_len as int, self.key@);
            let ghost off = key_offset(self.key@);
            let m = block_from_bytes(&self.buf);
            let (lo, hi) = counter_add(self.t_lo, self.t_hi, 128);
            self.t_lo = lo;
            self.t_hi = hi;
            proof {
                lemma_counter_words(self.t_lo, self.t_hi);
            }
            compress(&mut self.h, &m, self.t_lo, self.t_hi, false);
            let mut rest: Vec<u8> = Vec::new();
            let mut j: usize = 128;
            while j < self.buf.len()
                invariant
                    128 <= j <= self.buf@.len(),
                    self.buf@ == buf0,
                    rest@ == buf0.subrange(128, j as int),
                decreases self.buf@.len() - j,
            {
                let b = self.buf[j];
                rest.push(b);
                j += 1;
            }
            self.buf = rest;
            proof {
                assert(buf0.take(128) =~= f.skip(done0).take(128));
                assert(f.take(done0) + f.skip(done0).take(128) =~= f.take(done0 + 128));
                lemma_absorb_snoc(c0, f.take(done0), f.skip(done0).take(128), off);
                assert(self.h@ == absorb_blocks(c0, f.take(done0 + 128), off));
                assert(self.buf@ =~= f.skip(done0 + 128));
                assert((done0 + 128) % 128 == 0) by {
                    lemma_mod_multiples_vanish(1, done0, 128);
                }
            }
        }
        Ok(())
    }

    /// Pads the held-back bytes to one block, compresses them with the
    /// final-block flag and the counter at the true message length, and
    /// serialises the first `digest_len` little-endian bytes of the
    /// chaining state. Closes the session: every later call fails. Fails
    /// only on a session that was already finalized.
    pub fn finalize(&mut self) -> (r: Result<Vec<u8>, HashError>)
        requires
            old(self).wf(),
        ensures
            old(self).is_closed() ==> r == Err::<Vec<u8>, HashError>(
                HashError::SessionClosedError,
            ) && *final(self) == *old(self),
            !old(self).is_closed() ==> {
                &&& final(self).wf()
                &&& final(self).is_closed()
                &&& r matches Ok(d) && d@ == blake2b(
                    old(self).fed(),
                    old(self).key(),
                    old(self).digest_len(),
                ) && d@.len() == old(self).digest_len()
            },
    {
        if self.closed {
            return Err(HashError::SessionClosedError);
        }
        self.closed = true;
        let n = self.buf.len();
        let ghost f = self.fed@;
        let ghost tail = self.buf@;
        let ghost done = self.absorbed();
        let ghost c0 = chain_after_key(self.digest_len as int, self.key@);
        let ghost off = key_offset(self.key@);
        proof {
            assert(pad_block(tail).take(n as int) =~= tail);
        }
        while self.buf.len() < 128
            invariant
                n <= self.buf@.len() <= 128,
                self.buf@ == pad_block(tail).take(self.buf@.len() as int),
                self.h == old(self).h,
                self.t_lo == old(self).t_lo,
                self.t_hi == old(self).t_hi,
                self.digest_len == old(self).digest_len,
                self.closed,
                self.key == old(self).key,
                self.fed@ == f,
                tail.len() == n,
            decreases 128 - self.buf@.len(),
        {
            proof {
                assert(pad_block(tail).take(self.buf@.len() as int + 1) =~= pad_block(tail).take(
                    self.buf@.len() as int,
                ).push(0u8));
            }
            self.buf.push(0);
        }
        proof {
            assert(self.buf@.take(128) =~= pad_block(tail));
        }
        let m = block_from_bytes(&self.buf);
        let (lo, hi) = counter_add(self.t_lo, self.t_hi, n as u64);
        self.t_lo = lo;
        self.t_hi = hi;
        proof {
            lemma_counter_words(self.t_lo, self.t_hi);
        }
        compress(&mut self.h, &m, self.t_lo, self.t_hi, true);
        proof {
            lemma_hash_blocks_split(c0, f, off, done);
            assert(f.skip(done) == tail);
            assert(self.h@ == hash_blocks(c0, f, off));
        }
        let out = state_to_bytes(&self.h, self.digest_len);
        Ok(out)
    }
}

/// The whole hash in one call: the digest of `data` under `key`,
/// `digest_len` bytes of it — a session fed once and finalized.
pub fn hash(data: &Vec<u8>, digest_len: usize, key: &Vec<u8>) -> (r: Result<Vec<u8>, HashError>)
    ensures
        r is Ok <==> (1 <= digest_len <= 64 && key@.len() <= 64),
        r is Err ==> r == Err::<Vec<u8>, HashError>(HashError::ConfigurationError),
        r matches Ok(d) ==> d@ == blake2b(data@, key@, digest_len as int) && d@.len()
            == digest_len,
{
    let mut s = match new_session(digest_len, key) {
        Ok(s) => s,
        Err(e) => {
            return Err(e);
        },
    };
    // binds the length so that the counter-room bound of update is in scope
    let data_len = data.len();
    proof {
        assert(data_len + 128 < 0x1_0000_0000_0000_0000_0000_0000_0000_0000);
    }
    let _ = s.update(data);
    match s.finalize() {
        Ok(d) => Ok(d),
        // a fresh session is open, so finalize cannot fail here
        Err(_) => Err(HashError::ConfigurationError),
    }
}

} // verus!

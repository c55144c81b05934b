//! The 128-bit MurmurHash3 of a byte string, reduced to 32 bits.
use vstd::prelude::*;
use crate::utils::{string_bytes, text_bytes};

verus! {

/// The first of the two constants that mix the words of the key.
pub const C1: u64 = 0x87c37b91114253d5;

/// The second of the two constants that mix the words of the key.
pub const C2: u64 = 0x4cf5ad432745937f;

/// `v` rotated left by `n` bits.
pub open spec fn rotl64(v: u64, n: u64) -> u64 {
    (v << n) | (v >> ((64 - n) as u64))
}

/// The final mix of one half of the hash.
#[verifier::opaque]
pub open spec fn fmix(k: u64) -> u64 {
    let k = k ^ (k >> 33);
    let k = k.wrapping_mul(0xff51afd7ed558ccd);
    let k = k ^ (k >> 33);
    let k = k.wrapping_mul(0xc4ceb9fe1a85ec53);
    k ^ (k >> 33)
}

/// The value of the `count` bytes from `offset`, the first byte in the
/// lowest place.
pub open spec fn little_endian(key: Seq<u8>, offset: int, count: nat) -> int
    decreases count,
{
    if count == 0 {
        0
    } else {
        key[offset] + 256 * little_endian(key, offset + 1, (count - 1) as nat)
    }
}

/// 256 to the power `count`, for up to eight bytes.
pub open spec fn byte_limit(count: nat) -> int
    decreases count,
{
    if count == 0 {
        1
    } else {
        256 * byte_limit((count - 1) as nat)
    }
}

/// What the first word of a 16-byte block, or of the tail, adds to the
/// first half.
#[verifier::opaque]
pub open spec fn mix_k1(k1: u64) -> u64 {
    rotl64(k1.wrapping_mul(C1), 31).wrapping_mul(C2)
}

/// What the second word of a 16-byte block, or of the tail, adds to the
/// second half.
#[verifier::opaque]
pub open spec fn mix_k2(k2: u64) -> u64 {
    rotl64(k2.wrapping_mul(C2), 33).wrapping_mul(C1)
}

/// The two halves after one more 16-byte block with the words `k1`, `k2`.
#[verifier::opaque]
pub open spec fn block_mixed(h: (u64, u64), k1: u64, k2: u64) -> (u64, u64) {
    let h1 = h.0 ^ mix_k1(k1);
    let h1 = rotl64(h1, 27);
    let h1 = h1.wrapping_add(h.1);
    let h1 = h1.wrapping_mul(5).wrapping_add(0x52dce729);
    let h2 = h.1 ^ mix_k2(k2);
    let h2 = rotl64(h2, 31);
    let h2 = h2.wrapping_add(h1);
    let h2 = h2.wrapping_mul(5).wrapping_add(0x38495ab5);
    (h1, h2)
}

/// The two halves after the first `blocks` 16-byte blocks of `key`, both
/// started at `seed`.
pub open spec fn body_mixed(key: Seq<u8>, blocks: nat, seed: u64) -> (u64, u64)
    decreases blocks,
{
    if blocks == 0 {
        (seed, seed)
    } else {
        block_mixed(
            body_mixed(key, (blocks - 1) as nat, seed),
            little_endian(key, 16 * (blocks - 1), 8) as u64,
            little_endian(key, 16 * (blocks - 1) + 8, 8) as u64,
        )
    }
}

/// The two halves after the bytes that follow the last whole block.
pub open spec fn tail_mixed(key: Seq<u8>, h: (u64, u64)) -> (u64, u64) {
    let offset = 16 * (key.len() as int / 16);
    let rest = (key.len() % 16) as nat;
    let h2 = if rest > 8 {
        h.1 ^ mix_k2(little_endian(key, offset + 8, (rest - 8) as nat) as u64)
    } else {
        h.1
    };
    let h1 = if rest > 0 {
        h.0 ^ mix_k1(
            little_endian(
                key,
                offset,
                if rest > 8 {
                    8
                } else {
                    rest
                },
            ) as u64,
        )
    } else {
        h.0
    };
    (h1, h2)
}

/// The two halves of the finished hash.
#[verifier::opaque]
pub open spec fn finalized(h: (u64, u64), length: u64) -> (u64, u64) {
    let h1 = h.0 ^ length;
    let h2 = h.1 ^ length;
    let h1 = h1.wrapping_add(h2);
    let h2 = h2.wrapping_add(h1);
    let h1 = fmix(h1);
    let h2 = fmix(h2);
    let h1 = h1.wrapping_add(h2);
    let h2 = h2.wrapping_add(h1);
    (h1, h2)
}

/// The two 64-bit halves of the MurmurHash3 of `key` under `seed`.
pub open spec fn murmur128(key: Seq<u8>, seed: u64) -> (u64, u64) {
    finalized(tail_mixed(key, body_mixed(key, key.len() / 16, seed)), key.len() as u64)
}

/// The low 32 bits of `v`, read as a signed number.
pub open spec fn low_i32(v: u64) -> i32 {
    if v % 0x1_0000_0000 < 0x8000_0000 {
        (v % 0x1_0000_0000) as i32
    } else {
        (v % 0x1_0000_0000 - 0x1_0000_0000) as i32
    }
}

/// The 64-bit pattern of a seed, its sign carried into the upper bits.
pub open spec fn seed_bits(seed: i32) -> u64 {
    if seed >= 0 {
        seed as u64
    } else {
        (seed + 0x1_0000_0000_0000_0000) as u64
    }
}

/// The hash of `key` under `seed`: the sum of the two halves, cut to its
/// low 32 bits.
pub open spec fn hash_of(key: Seq<u8>, seed: i32) -> i32 {
    let h = murmur128(key, seed_bits(seed));
    low_i32(h.0.wrapping_add(h.1))
}

/// A run of up to eight bytes has a value below 256 to the power of its
/// length.
pub proof fn lemma_little_endian_bound(key: Seq<u8>, offset: int, count: nat)
    requires
        0 <= offset,
        offset + count <= key.len(),
    ensures
        0 <= little_endian(key, offset, count) < byte_limit(count),
    decreases count,
{
    if count > 0 {
        lemma_little_endian_bound(key, offset + 1, (count - 1) as nat);
    }
}

proof fn lemma_byte_limit_values()
    ensures
        byte_limit(0) == 1,
        byte_limit(1) == 0x100,
        byte_limit(2) == 0x1_0000,
        byte_limit(3) == 0x100_0000,
        byte_limit(4) == 0x1_0000_0000,
        byte_limit(5) == 0x100_0000_0000,
        byte_limit(6) == 0x1_0000_0000_0000,
        byte_limit(7) == 0x100_0000_0000_0000,
        byte_limit(8) == 0x1_0000_0000_0000_0000,
{
    reveal_with_fuel(byte_limit, 10);
}

/// The hash function.
pub struct Murmur128 {}

impl Murmur128 {
    /// The hash of the bytes of `value` under `seed`.
    pub fn hash(value: &String, seed: i32) -> (hash: i32)
        requires
            text_bytes(value@).len() <= i32::MAX,
        ensures
            hash == hash_of(text_bytes(value@), seed),
    {
        Self::hash_bytes(string_bytes(value), seed)
    }

    /// The hash of `key` under `seed`.
    pub fn hash_bytes(key: &[u8], seed: i32) -> (hash: i32)
        requires
            key@.len() <= i32::MAX,
        ensures
            hash == hash_of(key@, seed),
    {
        let seed64: u64 = if seed >= 0 {
            seed as u64
        } else {
            0xFFFF_FFFF_0000_0000u64 + ((seed + 1 + i32::MAX) as u64 + 0x8000_0000)
        };
        let sum = Self::inner_hash(key, seed64);
        let low: u64 = sum % 0x1_0000_0000;
        if low < 0x8000_0000 {
            low as i32
        } else {
            ((low - 0x8000_0000) as i32) + i32::MIN
        }
    }

    /// The word that the `count` bytes from `offset` spell, the first byte
    /// in the lowest place.
    fn get_block(key: &[u8], offset: usize, count: usize) -> (word: u64)
        requires
            count <= 8,
            offset + count <= key@.len(),
        ensures
            word == little_endian(key@, offset as int, count as nat),
    {
        let mut word: u64 = 0;
        let mut i: usize = count;
        let length: usize = key.len();
        proof {
            lemma_byte_limit_values();
        }
        while i > 0
            invariant
                i <= count <= 8,
                offset + count <= key@.len(),
                key@.len() == length,
                word == little_endian(key@, offset + i, (count - i) as nat),
                word < byte_limit((count - i) as nat),
            decreases i,
        {
            proof {
                lemma_byte_limit_values();
                assert(byte_limit((count - i + 1) as nat) == 256 * byte_limit((count - i) as nat));
            }
            i = i - 1;
            word = word * 256 + key[offset + i] as u64;
        }
        word
    }

    fn rotl64(v: u64, n: u32) -> (rotated: u64)
        requires
            0 < n < 64,
        ensures
            rotated == rotl64(v, n as u64),
    {
        (v << n) | (v >> (64 - n))
    }

    fn fmix(k: u64) -> (mixed: u64)
        ensures
            mixed == fmix(k),
    {
        reveal(fmix);
        let k = k ^ (k >> 33);
        let k = k.wrapping_mul(0xff51afd7ed558ccd);
        let k = k ^ (k >> 33);
        let k = k.wrapping_mul(0xc4ceb9fe1a85ec53);
        k ^ (k >> 33)
    }

    fn mix_k1(k1: u64) -> (mixed: u64)
        ensures
            mixed == mix_k1(k1),
    {
        reveal(mix_k1);
        Self::rotl64(k1.wrapping_mul(C1), 31).wrapping_mul(C2)
    }

    fn mix_k2(k2: u64) -> (mixed: u64)
        ensures
            mixed == mix_k2(k2),
    {
        reveal(mix_k2);
        Self::rotl64(k2.wrapping_mul(C2), 33).wrapping_mul(C1)
    }

    /// The sum of the two halves of the hash of `key` under `seed`.
    fn inner_hash(key: &[u8], seed: u64) -> (sum: u64)
        ensures
            sum == murmur128(key@, seed).0.wrapping_add(murmur128(key@, seed).1),
    {
        let length: usize = key.len();
        let nblocks: usize = length / 16;
        let mut h1: u64 = seed;
        let mut h2: u64 = seed;
        let mut i: usize = 0;
        while i < nblocks
            invariant
                i <= nblocks,
                nblocks == key@.len() / 16,
                key@.len() == length,
                (h1, h2) == body_mixed(key@, i as nat, seed),
            decreases nblocks - i,
        {
            assert(i * 16 + 16 <= key@.len());
            let k1 = Self::get_block(key, i * 16, 8);
            let k2 = Self::get_block(key, i * 16 + 8, 8);
            let mixed = Self::mix_block(h1, h2, k1, k2);
            proof {
                assert(body_mixed(key@, (i + 1) as nat, seed) == block_mixed(
                    body_mixed(key@, i as nat, seed),
                    little_endian(key@, 16 * i, 8) as u64,
                    little_endian(key@, 16 * i + 8, 8) as u64,
                ));
            }
            h1 = mixed.0;
            h2 = mixed.1;
            i = i + 1;
        }
        let offset: usize = nblocks * 16;
        let rest: usize = length % 16;
        if rest > 8 {
            let k2 = Self::get_block(key, offset + 8, rest - 8);
            h2 = h2 ^ Self::mix_k2(k2);
        }
        if rest > 0 {
            let k1 = Self::get_block(
                key,
                offset,
                if rest > 8 {
                    8
                } else {
                    rest
                },
            );
            h1 = h1 ^ Self::mix_k1(k1);
        }
        let halves = Self::finalize(h1, h2, length as u64);
        halves.0.wrapping_add(halves.1)
    }

    fn mix_block(h1: u64, h2: u64, k1: u64, k2: u64) -> (mixed: (u64, u64))
        ensures
            mixed == block_mixed((h1, h2), k1, k2),
    {
        reveal(block_mixed);
        let h1 = h1 ^ Self::mix_k1(k1);
        let h1 = Self::rotl64(h1, 27);
        let h1 = h1.wrapping_add(h2);
        let h1 = h1.wrapping_mul(5).wrapping_add(0x52dce729);
        let h2 = h2 ^ Self::mix_k2(k2);
        let h2 = Self::rotl64(h2, 31);
        let h2 = h2.wrapping_add(h1);
        let h2 = h2.wrapping_mul(5).wrapping_add(0x38495ab5);
        (h1, h2)
    }

    fn finalize(h1: u64, h2: u64, length: u64) -> (halves: (u64, u64))
        ensures
            halves == finalized((h1, h2), length),
    {
        reveal(finalized);
        let h1 = h1 ^ length;
        let h2 = h2 ^ length;
        let h1 = h1.wrapping_add(h2);
        let h2 = h2.wrapping_add(h1);
        let h1 = Self::fmix(h1);
        let h2 = Self::fmix(h2);
        let h1 = h1.wrapping_add(h2);
        let h2 = h2.wrapping_add(h1);
        (h1, h2)
    }
}

} // verus!

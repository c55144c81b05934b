//! The bloom filter over the paths of the series of a file.
use crate::murmur128::{hash_of, Murmur128};
use crate::ts_file_config::{TsFileConfig, BITS_PER_PATH_UNIT};
use crate::utils::{low_u32, low_u32_of, var_u32_bytes, write_bytes, write_var_u32};
use vstd::prelude::*;

verus! {

/// The bit that a path sets under the hash function with seed `seed` in a
/// filter of `cap` bits: the magnitude of its hash, taken as 0 for the
/// least 32-bit number, modulo the number of bits.
pub open spec fn hash_index(path: Seq<u8>, seed: i32, cap: i32) -> int {
    let hash = hash_of(path, seed);
    (if hash == i32::MIN {
        0int
    } else if hash < 0 {
        -hash
    } else {
        hash as int
    }) % (cap as int)
}

/// The bits after `path` has been added under the first `count` of `seeds`.
pub open spec fn bits_added(bits: Seq<bool>, seeds: Seq<i32>, count: int, path: Seq<u8>) -> Seq<bool>
    decreases count,
{
    if count <= 0 {
        bits
    } else {
        bits_added(bits, seeds, count - 1, path).update(
            hash_index(path, seeds[count - 1], bits.len() as i32),
            true,
        )
    }
}

/// The bits after each of `paths` has been added in turn.
pub open spec fn bits_built(bits: Seq<bool>, seeds: Seq<i32>, paths: Seq<Seq<u8>>) -> Seq<bool>
    decreases paths.len(),
{
    if paths.len() == 0 {
        bits
    } else {
        bits_added(bits_built(bits, seeds, paths.drop_last()), seeds, seeds.len() as int, paths.last())
    }
}

/// Whether a filter with the bits `bits` takes `path` for one of its
/// paths: the path's bit under each seed is set.
pub open spec fn tests_positive(bits: Seq<bool>, seeds: Seq<i32>, path: Seq<u8>) -> bool {
    forall|i: int|
        0 <= i < seeds.len() ==> bits[#[trigger] hash_index(path, seeds[i], bits.len() as i32)]
}

/// The number of bits of a filter for `paths` paths: the paths times the
/// bits per path, rounded up, but no less than the least size and no more
/// than a 32-bit signed number holds.
pub open spec fn filter_size(config: TsFileConfig, paths: int) -> i32 {
    let wanted = (paths * config.bloom_filter_bits_per_path + BITS_PER_PATH_UNIT - 1)
        / (BITS_PER_PATH_UNIT as int);
    if wanted > i32::MAX {
        i32::MAX
    } else if wanted < config.minimal_size {
        config.minimal_size
    } else {
        wanted as i32
    }
}

/// The number of hash functions of a filter: what the error rate asks
/// for, but no more than the largest number allowed.
pub open spec fn filter_hash_count(config: TsFileConfig) -> i32 {
    if config.bloom_filter_hash_functions < config.maximal_hash_function_size {
        config.bloom_filter_hash_functions
    } else {
        config.maximal_hash_function_size
    }
}

/// The value of bit `index` as a number; a bit beyond the end counts as
/// unset.
pub open spec fn bit_number(bits: Seq<bool>, index: int) -> int {
    if 0 <= index < bits.len() && bits[index] {
        1
    } else {
        0
    }
}

/// Byte `i` of the stored bits: bit `8 * i` in the lowest place.
pub open spec fn stored_byte(bits: Seq<bool>, i: int) -> u8 {
    (bit_number(bits, 8 * i) + 2 * bit_number(bits, 8 * i + 1) + 4 * bit_number(bits, 8 * i + 2)
        + 8 * bit_number(bits, 8 * i + 3) + 16 * bit_number(bits, 8 * i + 4) + 32 * bit_number(
        bits,
        8 * i + 5,
    ) + 64 * bit_number(bits, 8 * i + 6) + 128 * bit_number(bits, 8 * i + 7)) as u8
}

/// The stored form of the bits: eight bits to a byte, the first bit of
/// each eight in the lowest place.
pub open spec fn stored_bits(bits: Seq<bool>) -> Seq<u8> {
    Seq::new(((bits.len() + 7) / 8) as nat, |i: int| stored_byte(bits, i))
}

/// The place value of bit `j` of a byte.
pub open spec fn place_value(j: int) -> int {
    if j == 0 {
        1
    } else if j == 1 {
        2
    } else if j == 2 {
        4
    } else if j == 3 {
        8
    } else if j == 4 {
        16
    } else if j == 5 {
        32
    } else if j == 6 {
        64
    } else {
        128
    }
}

/// Bit `index` as a reader finds it in the stored form.
pub open spec fn read_stored_bit(bytes: Seq<u8>, index: int) -> bool {
    (bytes[index / 8] as int / place_value(index % 8)) % 2 == 1
}

/// A reader finds in the stored form each bit as the filter holds it.
pub proof fn lemma_stored_bits_round_trip(bits: Seq<bool>, index: int)
    requires
        0 <= index < bits.len(),
    ensures
        index / 8 < stored_bits(bits).len(),
        read_stored_bit(stored_bits(bits), index) == bits[index],
{
    let i = index / 8;
    let j = index % 8;
    let b0 = bit_number(bits, 8 * i);
    let b1 = bit_number(bits, 8 * i + 1);
    let b2 = bit_number(bits, 8 * i + 2);
    let b3 = bit_number(bits, 8 * i + 3);
    let b4 = bit_number(bits, 8 * i + 4);
    let b5 = bit_number(bits, 8 * i + 5);
    let b6 = bit_number(bits, 8 * i + 6);
    let b7 = bit_number(bits, 8 * i + 7);
    let total = b0 + 2 * b1 + 4 * b2 + 8 * b3 + 16 * b4 + 32 * b5 + 64 * b6 + 128 * b7;
    assert(0 <= total < 256);
    assert(stored_bits(bits)[i] == total as u8);
    assert(bit_number(bits, index) == if bits[index] {
        1int
    } else {
        0int
    });
    if j == 0 {
        assert((total / 1) % 2 == b0);
    } else if j == 1 {
        assert((total / 2) % 2 == b1);
    } else if j == 2 {
        assert((total / 4) % 2 == b2);
    } else if j == 3 {
        assert((total / 8) % 2 == b3);
    } else if j == 4 {
        assert((total / 16) % 2 == b4);
    } else if j == 5 {
        assert((total / 32) % 2 == b5);
    } else if j == 6 {
        assert((total / 64) % 2 == b6);
    } else {
        assert((total / 128) % 2 == b7);
    }
}

/// Adding a path sets bits and clears none, and keeps the number of bits.
pub proof fn lemma_bits_added_grows(bits: Seq<bool>, seeds: Seq<i32>, count: int, path: Seq<u8>)
    requires
        bits.len() >= 1,
        bits.len() <= i32::MAX,
        count <= seeds.len(),
    ensures
        bits_added(bits, seeds, count, path).len() == bits.len(),
        forall|i: int| 0 <= i < bits.len() && bits[i] ==> bits_added(bits, seeds, count, path)[i],
        forall|k: int|
            0 <= k < count ==> bits_added(bits, seeds, count, path)[#[trigger] hash_index(
                path,
                seeds[k],
                bits.len() as i32,
            )],
    decreases count,
{
    if count > 0 {
        lemma_bits_added_grows(bits, seeds, count - 1, path);
        assert forall|k: int| 0 <= k < count implies bits_added(bits, seeds, count, path)[
        #[trigger] hash_index(path, seeds[k], bits.len() as i32)] by {
            lemma_hash_index_range(path, seeds[k], bits.len() as i32);
            lemma_hash_index_range(path, seeds[count - 1], bits.len() as i32);
            if k < count - 1 {
                assert(bits_added(bits, seeds, count - 1, path)[hash_index(
                    path,
                    seeds[k],
                    bits.len() as i32,
                )]);
            }
        }
    }
}

/// The bit of a path lies inside the filter.
pub proof fn lemma_hash_index_range(path: Seq<u8>, seed: i32, cap: i32)
    requires
        cap >= 1,
    ensures
        0 <= hash_index(path, seed, cap) < cap,
{
}

/// A path that has been added tests positive.
pub proof fn lemma_added_tests_positive(bits: Seq<bool>, seeds: Seq<i32>, path: Seq<u8>)
    requires
        1 <= bits.len() <= i32::MAX,
    ensures
        tests_positive(bits_added(bits, seeds, seeds.len() as int, path), seeds, path),
{
    lemma_bits_added_grows(bits, seeds, seeds.len() as int, path);
}

/// A path that tests positive still does after another path is added.
pub proof fn lemma_positive_stays(
    bits: Seq<bool>,
    seeds: Seq<i32>,
    path: Seq<u8>,
    other: Seq<u8>,
)
    requires
        1 <= bits.len() <= i32::MAX,
        tests_positive(bits, seeds, path),
    ensures
        tests_positive(bits_added(bits, seeds, seeds.len() as int, other), seeds, path),
{
    lemma_bits_added_grows(bits, seeds, seeds.len() as int, other);
    let after = bits_added(bits, seeds, seeds.len() as int, other);
    assert forall|i: int| 0 <= i < seeds.len() implies after[#[trigger] hash_index(
        path,
        seeds[i],
        after.len() as i32,
    )] by {
        lemma_hash_index_range(path, seeds[i], bits.len() as i32);
        assert(bits[hash_index(path, seeds[i], bits.len() as i32)]);
    }
}

/// Every path that a filter was built from tests positive.
pub proof fn lemma_built_tests_positive(
    bits: Seq<bool>,
    seeds: Seq<i32>,
    paths: Seq<Seq<u8>>,
    i: int,
)
    requires
        1 <= bits.len() <= i32::MAX,
        0 <= i < paths.len(),
    ensures
        bits_built(bits, seeds, paths).len() == bits.len(),
        tests_positive(bits_built(bits, seeds, paths), seeds, paths[i]),
    decreases paths.len(),
{
    let before = bits_built(bits, seeds, paths.drop_last());
    lemma_built_len(bits, seeds, paths.drop_last());
    lemma_bits_added_grows(before, seeds, seeds.len() as int, paths.last());
    if i == paths.len() - 1 {
        lemma_added_tests_positive(before, seeds, paths.last());
    } else {
        lemma_built_tests_positive(bits, seeds, paths.drop_last(), i);
        assert(paths.drop_last()[i] == paths[i]);
        lemma_positive_stays(before, seeds, paths[i], paths.last());
    }
}

/// Building keeps the number of bits.
pub proof fn lemma_built_len(bits: Seq<bool>, seeds: Seq<i32>, paths: Seq<Seq<u8>>)
    requires
        1 <= bits.len() <= i32::MAX,
    ensures
        bits_built(bits, seeds, paths).len() == bits.len(),
    decreases paths.len(),
{
    if paths.len() > 0 {
        lemma_built_len(bits, seeds, paths.drop_last());
        lemma_bits_added_grows(
            bits_built(bits, seeds, paths.drop_last()),
            seeds,
            seeds.len() as int,
            paths.last(),
        );
    }
}

/// One hash function of a filter.
pub struct HashFunction {
    pub cap: i32,
    pub seed: i32,
}

impl HashFunction {
    /// The hash function with the seed `seed` over a filter of `cap` bits.
    pub fn new(cap: i32, seed: i32) -> (function: HashFunction)
        ensures
            function.cap == cap,
            function.seed == seed,
    {
        HashFunction { cap, seed }
    }

    fn _murmur_hash(&self, value: &[u8], seed: i32) -> (hash: i32)
        requires
            value@.len() <= i32::MAX,
        ensures
            hash == hash_of(value@, seed),
    {
        Murmur128::hash_bytes(value, seed)
    }

    /// The bit that `value` sets under this function.
    pub fn hash(&self, value: &[u8]) -> (index: usize)
        requires
            self.cap >= 1,
            value@.len() <= i32::MAX,
        ensures
            index == hash_index(value@, self.seed, self.cap),
            index < self.cap,
    {
        let hash = self._murmur_hash(value, self.seed);
        let magnitude: i32 = if hash == i32::MIN {
            0
        } else if hash < 0 {
            -hash
        } else {
            hash
        };
        (magnitude % self.cap) as usize
    }
}

/// What a filter is made of: the seeds of its hash functions and its
/// bits.
pub struct FilterState {
    pub seeds: Seq<i32>,
    pub bits: Seq<bool>,
}

/// The bytes of a filter in a file: the number of bytes of the stored
/// bits as a variable-length integer, the stored bits, then the number of
/// bits and the number of hash functions, each as a variable-length integer.
pub open spec fn filter_bytes(state: FilterState) -> Seq<u8> {
    var_u32_bytes(low_u32_of(stored_bits(state.bits).len() as int)) + stored_bits(state.bits)
        + var_u32_bytes(state.bits.len() as u32) + var_u32_bytes(state.seeds.len() as u32)
}

/// A reader finds in the bytes of a filter what the filter is made of: the
/// number of bytes of the stored bits in front; behind the stored bits, in
/// which each bit reads as the filter holds it, the number of bits and then
/// the number of hash functions.
pub proof fn lemma_filter_reads_back(state: FilterState, index: int)
    requires
        state.bits.len() <= u32::MAX,
        state.seeds.len() <= u32::MAX,
        0 <= index < state.bits.len(),
    ensures
        ({
            let bytes = filter_bytes(state);
            let stored = stored_bits(state.bits);
            let length = var_u32_bytes(low_u32_of(stored.len() as int)).len();
            let size = var_u32_bytes(state.bits.len() as u32).len();
            &&& stored.len() <= u32::MAX
            &&& crate::utils::parse_var_u32(bytes) == Some((stored.len() as u32, length))
            &&& bytes.len() >= length + stored.len() + size
            &&& bytes.subrange(length as int, (length + stored.len()) as int) == stored
            &&& read_stored_bit(stored, index) == state.bits[index]
            &&& crate::utils::parse_var_u32(bytes.skip((length + stored.len()) as int)) == Some(
                (state.bits.len() as u32, size),
            )
            &&& crate::utils::parse_var_u32(bytes.skip((length + stored.len() + size) as int)) == Some(
                (state.seeds.len() as u32, var_u32_bytes(state.seeds.len() as u32).len()),
            )
        }),
{
    let bytes = filter_bytes(state);
    let stored = stored_bits(state.bits);
    let first = var_u32_bytes(low_u32_of(stored.len() as int));
    let second = var_u32_bytes(state.bits.len() as u32);
    let third = var_u32_bytes(state.seeds.len() as u32);
    assert(low_u32_of(stored.len() as int) == stored.len());
    crate::utils::lemma_var_u32_round_trip(stored.len() as u32, stored + second + third);
    assert(bytes =~= first + (stored + second + third));
    assert(bytes.subrange(first.len() as int, (first.len() + stored.len()) as int) =~= stored);
    assert(bytes.skip((first.len() + stored.len()) as int) =~= second + third);
    crate::utils::lemma_var_u32_round_trip(state.bits.len() as u32, third);
    assert(bytes.skip((first.len() + stored.len() + second.len()) as int) =~= third
        + Seq::<u8>::empty());
    crate::utils::lemma_var_u32_round_trip(state.seeds.len() as u32, Seq::empty());
    lemma_stored_bits_round_trip(state.bits, index);
}

/// The first `count` seeds of the settings.
pub open spec fn seeds_of(config: TsFileConfig, count: int) -> Seq<i32> {
    Seq::new(count as nat, |i: int| config.seeds[i] as i32)
}

/// The filter for `paths` paths under the settings, before any path is
/// added.
pub open spec fn empty_filter_state(config: TsFileConfig, paths: int) -> FilterState {
    FilterState {
        seeds: seeds_of(config, filter_hash_count(config) as int),
        bits: Seq::new(filter_size(config, paths) as nat, |i: int| false),
    }
}

/// The filter built from `paths` under the settings.
pub open spec fn built_filter_state(config: TsFileConfig, paths: Seq<Seq<u8>>) -> FilterState {
    let empty = empty_filter_state(config, paths.len() as int);
    FilterState { seeds: empty.seeds, bits: bits_built(empty.bits, empty.seeds, paths) }
}

/// A bloom filter.
pub struct BloomFilter {
    size: i32,
    hash_function_size: i32,
    func: Vec<HashFunction>,
    bit_set: Vec<bool>,
}

impl View for BloomFilter {
    type V = FilterState;

    closed spec fn view(&self) -> FilterState {
        FilterState { seeds: Seq::new(self.func@.len(), |i: int| self.func@[i].seed), bits: self.bit_set@ }
    }
}

impl BloomFilter {
    /// Whether the filter is one: it has a bit, as many bits as it says,
    /// and hash functions over all its bits.
    pub closed spec fn wf(&self) -> bool {
        &&& self.size >= 1
        &&& self.bit_set@.len() == self.size
        &&& self.func@.len() == self.hash_function_size
        &&& self.hash_function_size <= 8
        &&& forall|i: int| 0 <= i < self.func@.len() ==> (#[trigger] self.func@[i]).cap == self.size
    }

    /// What being well-formed says of the state.
    pub proof fn lemma_wf(&self)
        requires
            self.wf(),
        ensures
            1 <= self@.bits.len() <= i32::MAX,
            self@.seeds.len() <= 8,
    {
    }

    /// A filter of `size` bits, none set, with the first
    /// `hash_function_size` of `seeds` as the seeds of its hash functions.
    pub fn new(size: i32, hash_function_size: i32, seeds: &[u8; 8]) -> (filter: BloomFilter)
        requires
            size >= 1,
            0 <= hash_function_size <= 8,
        ensures
            filter.wf(),
            filter@.bits == Seq::new(size as nat, |i: int| false),
            filter@.seeds == Seq::new(hash_function_size as nat, |i: int| seeds[i] as i32),
    {
        let mut func: Vec<HashFunction> = Vec::new();
        let mut i: usize = 0;
        while i < hash_function_size as usize
            invariant
                0 <= hash_function_size <= 8,
                i <= hash_function_size,
                func@.len() == i,
                forall|k: int|
                    0 <= k < i ==> (#[trigger] func@[k]).cap == size && func@[k].seed == seeds[k] as i32,
            decreases hash_function_size - i,
        {
            func.push(HashFunction::new(size, seeds[i] as i32));
            i = i + 1;
        }
        let mut bit_set: Vec<bool> = Vec::new();
        let mut n: usize = 0;
        while n < size as usize
            invariant
                size >= 1,
                n <= size,
                bit_set@.len() == n,
                forall|k: int| 0 <= k < n ==> !(#[trigger] bit_set@[k]),
            decreases size - n,
        {
            bit_set.push(false);
            n = n + 1;
        }
        let filter = BloomFilter { size, hash_function_size, func, bit_set };
        proof {
            assert(filter@.bits =~= Seq::new(size as nat, |i: int| false));
            assert(filter@.seeds =~= Seq::new(hash_function_size as nat, |i: int| seeds[i] as i32));
        }
        filter
    }

    /// Adds `path`: sets its bit under each hash function.
    pub fn add(&mut self, path: &[u8])
        requires
            old(self).wf(),
            path@.len() <= i32::MAX,
        ensures
            final(self).wf(),
            final(self)@.seeds == old(self)@.seeds,
            final(self)@.bits == bits_added(
                old(self)@.bits,
                old(self)@.seeds,
                old(self)@.seeds.len() as int,
                path@,
            ),
            tests_positive(final(self)@.bits, final(self)@.seeds, path@),
    {
        let mut i: usize = 0;
        let ghost seeds = self@.seeds;
        let ghost start = self@.bits;
        while i < self.func.len()
            invariant
                self.wf(),
                i <= self.func@.len(),
                self@.seeds == seeds,
                self.func@ == old(self).func@,
                start == old(self)@.bits,
                start.len() == self.size,
                path@.len() <= i32::MAX,
                self@.bits == bits_added(start, seeds, i as int, path@),
            decreases self.func@.len() - i,
        {
            let bit_id = self.func[i].hash(path);
            proof {
                assert(seeds[i as int] == self.func@[i as int].seed);
            }
            self.bit_set[bit_id] = true;
            i = i + 1;
        }
        proof {
            lemma_added_tests_positive(start, seeds, path@);
        }
    }

    /// Whether the filter takes `path` for one of its paths.
    pub fn contains(&self, path: &[u8]) -> (positive: bool)
        requires
            self.wf(),
            path@.len() <= i32::MAX,
        ensures
            positive == tests_positive(self@.bits, self@.seeds, path@),
    {
        let mut i: usize = 0;
        while i < self.func.len()
            invariant
                self.wf(),
                i <= self.func@.len(),
                path@.len() <= i32::MAX,
                forall|k: int|
                    0 <= k < i ==> self@.bits[#[trigger] hash_index(
                        path@,
                        self@.seeds[k],
                        self@.bits.len() as i32,
                    )],
            decreases self.func@.len() - i,
        {
            let bit_id = self.func[i].hash(path);
            proof {
                assert(self@.seeds[i as int] == self.func@[i as int].seed);
            }
            if !self.bit_set[bit_id] {
                proof {
                    assert(!self@.bits[hash_index(
                        path@,
                        self@.seeds[i as int],
                        self@.bits.len() as i32,
                    )]);
                }
                return false;
            }
            i = i + 1;
        }
        true
    }

    /// The filter for `num_of_string` paths under the settings, before any
    /// path is added.
    pub fn empty_filter(config: &TsFileConfig, num_of_string: usize) -> (filter: BloomFilter)
        requires
            config.wf(),
        ensures
            filter.wf(),
            filter@ == empty_filter_state(*config, num_of_string as int),
    {
        assert((num_of_string as u128) * (config.bloom_filter_bits_per_path as u128)
            <= 0x1_0000_0000_0000_0000 * 0x100_0000_0000_0000) by (nonlinear_arith)
            requires
                num_of_string <= 0xFFFF_FFFF_FFFF_FFFF,
                config.bloom_filter_bits_per_path <= 0x100_0000_0000_0000,
        ;
        let wanted: u128 = ((num_of_string as u128) * (config.bloom_filter_bits_per_path as u128)
            + (BITS_PER_PATH_UNIT as u128 - 1)) / (BITS_PER_PATH_UNIT as u128);
        let size: i32 = if wanted > i32::MAX as u128 {
            i32::MAX
        } else if wanted < config.minimal_size as u128 {
            config.minimal_size
        } else {
            wanted as i32
        };
        let hash_function_size = if config.bloom_filter_hash_functions
            < config.maximal_hash_function_size {
            config.bloom_filter_hash_functions
        } else {
            config.maximal_hash_function_size
        };
        let filter = BloomFilter::new(size, hash_function_size, &config.seeds);
        proof {
            assert(filter@.seeds =~= seeds_of(*config, filter_hash_count(*config) as int));
        }
        filter
    }

    /// The filter built from `paths` under the settings.
    pub fn build(paths: &Vec<Vec<u8>>, config: &TsFileConfig) -> (filter: BloomFilter)
        requires
            config.wf(),
            forall|i: int| 0 <= i < paths@.len() ==> (#[trigger] paths@[i])@.len() <= i32::MAX,
        ensures
            filter.wf(),
            filter@ == built_filter_state(*config, Seq::new(paths@.len(), |i: int| paths@[i]@)),
    {
        let mut filter = BloomFilter::empty_filter(config, paths.len());
        let ghost all = Seq::new(paths@.len(), |i: int| paths@[i]@);
        let ghost empty = filter@;
        let mut i: usize = 0;
        proof {
            assert(all.take(0) =~= Seq::<Seq<u8>>::empty());
        }
        while i < paths.len()
            invariant
                filter.wf(),
                i <= paths@.len(),
                all == Seq::new(paths@.len(), |k: int| paths@[k]@),
                forall|k: int| 0 <= k < paths@.len() ==> (#[trigger] paths@[k])@.len() <= i32::MAX,
                filter@.seeds == empty.seeds,
                filter@.bits == bits_built(empty.bits, empty.seeds, all.take(i as int)),
            decreases paths@.len() - i,
        {
            filter.add(paths[i].as_slice());
            proof {
                assert(all.take(i + 1).drop_last() =~= all.take(i as int));
                assert(all.take(i + 1).last() == paths@[i as int]@);
            }
            i = i + 1;
        }
        proof {
            assert(all.take(i as int) =~= all);
        }
        filter
    }

    fn bit_at(&self, index: usize) -> (bit: u8)
        ensures
            bit == bit_number(self.bit_set@, index as int),
    {
        if index < self.bit_set.len() && self.bit_set[index] {
            1
        } else {
            0
        }
    }

    /// The stored form of the bits.
    pub fn serialize_bits(&self) -> (bytes: Vec<u8>)
        requires
            self.wf(),
        ensures
            bytes@ == stored_bits(self@.bits),
    {
        let number_of_bytes: usize = (self.bit_set.len() + 7) / 8;
        let mut result: Vec<u8> = Vec::new();
        let mut i: usize = 0;
        while i < number_of_bytes
            invariant
                self.wf(),
                number_of_bytes == (self.bit_set@.len() + 7) / 8,
                i <= number_of_bytes,
                result@.len() == i,
                forall|k: int| 0 <= k < i ==> #[trigger] result@[k] == stored_byte(self.bit_set@, k),
            decreases number_of_bytes - i,
        {
            let base: usize = 8 * i;
            let byte: u8 = self.bit_at(base) + 2 * self.bit_at(base + 1) + 4 * self.bit_at(base + 2)
                + 8 * self.bit_at(base + 3) + 16 * self.bit_at(base + 4) + 32 * self.bit_at(
                base + 5,
            ) + 64 * self.bit_at(base + 6) + 128 * self.bit_at(base + 7);
            result.push(byte);
            i = i + 1;
        }
        proof {
            assert(result@ =~= stored_bits(self@.bits));
        }
        result
    }

    /// Appends the bytes of the filter to `file`.
    pub fn serialize(&self, file: &mut Vec<u8>)
        requires
            self.wf(),
        ensures
            final(file)@ == old(file)@ + filter_bytes(self@),
    {
        let bytes = self.serialize_bits();
        let ghost start = file@;
        write_var_u32(low_u32(bytes.len()), file);
        write_bytes(bytes.as_slice(), file);
        let ghost head = var_u32_bytes(low_u32_of(bytes@.len() as int)) + bytes@;
        assert(file@ =~= start + head);
        write_var_u32(self.size as u32, file);
        assert(file@ =~= start + (head + var_u32_bytes(self.size as u32)));
        let ghost head = head + var_u32_bytes(self.size as u32);
        write_var_u32(self.hash_function_size as u32, file);
        assert(file@ =~= start + (head + var_u32_bytes(self.hash_function_size as u32)));
    }
}

} // verus!

//! The settings of a writer.
use vstd::prelude::*;

verus! {

/// The unit in which the bits of a bloom filter per path are counted: the
/// setting holds the number of bits times this.
pub const BITS_PER_PATH_UNIT: u64 = 0x10_0000_0000_0000;

/// The settings of a writer.
#[derive(Clone, Copy, Debug)]
pub struct TsFileConfig {
    /// The largest number of entries of a node of the metadata index.
    pub max_degree_of_index_node: usize,
    /// The bits that the bloom filter gets for each path, in units of one
    /// part in 2 to the power 52. For an error rate `p` this is
    /// `-ln(p) / ln(2)^2`.
    pub bloom_filter_bits_per_path: u64,
    /// The number of hash functions that the error rate asks for. For an
    /// error rate `p` this is `floor(-ln(p) / ln(2)) + 1`.
    pub bloom_filter_hash_functions: i32,
    /// The least number of bits of the bloom filter.
    pub minimal_size: i32,
    /// The largest number of hash functions of the bloom filter.
    pub maximal_hash_function_size: i32,
    /// The seeds of the hash functions.
    pub seeds: [u8; 8],
}

impl TsFileConfig {
    /// The settings that a writer has when none are given: nodes of up to
    /// 256 entries, and a bloom filter for an error rate of 0.05 with at
    /// least 256 bits and at most 8 hash functions.
    pub open spec fn standard() -> TsFileConfig {
        TsFileConfig {
            max_degree_of_index_node: 256,
            bloom_filter_bits_per_path: 28080953516875023,
            bloom_filter_hash_functions: 5,
            minimal_size: 256,
            maximal_hash_function_size: 8,
            seeds: [5u8, 7u8, 11u8, 19u8, 31u8, 37u8, 43u8, 59u8],
        }
    }

    /// Whether a writer can work with the settings: a node holds two
    /// entries or more, the bloom filter has a bit, no more hash functions
    /// than seeds, and no more bits per path than 16.
    pub open spec fn wf(&self) -> bool {
        &&& self.max_degree_of_index_node >= 2
        &&& self.bloom_filter_bits_per_path <= 16 * BITS_PER_PATH_UNIT
        &&& self.bloom_filter_hash_functions >= 0
        &&& self.minimal_size >= 1
        &&& 0 <= self.maximal_hash_function_size <= 8
    }

    /// Whether a writer can work with the settings.
    pub fn is_valid(&self) -> (valid: bool)
        ensures
            valid == self.wf(),
    {
        self.max_degree_of_index_node >= 2 && self.bloom_filter_bits_per_path <= 16
            * BITS_PER_PATH_UNIT && self.bloom_filter_hash_functions >= 0 && self.minimal_size >= 1
            && 0 <= self.maximal_hash_function_size && self.maximal_hash_function_size <= 8
    }
}

impl Default for TsFileConfig {
    fn default() -> (config: TsFileConfig)
        ensures
            config == TsFileConfig::standard(),
            config.wf(),
    {
        TsFileConfig {
            max_degree_of_index_node: 256,
            bloom_filter_bits_per_path: 28080953516875023,
            bloom_filter_hash_functions: 5,
            minimal_size: 256,
            maximal_hash_function_size: 8,
            seeds: [5, 7, 11, 19, 31, 37, 43, 59],
        }
    }
}

} // verus!

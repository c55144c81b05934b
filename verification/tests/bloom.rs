use tsfile_writer::bloom_filter::{BloomFilter, HashFunction};
use tsfile_writer::murmur128::Murmur128;
use tsfile_writer::ts_file_config::TsFileConfig;

#[test]
fn path_sets_five_known_bits() {
    let seeds = [5, 7, 11, 19, 31];
    let mut bits: Vec<usize> = seeds
        .iter()
        .map(|seed| HashFunction::new(256, *seed).hash(b"d1.s1"))
        .collect();
    bits.sort();
    assert_eq!(bits, [2, 112, 128, 155, 241]);
}

#[test]
fn hash_of_text_is_hash_of_its_bytes() {
    let text = String::from("root.sg.d1.temperature");
    for seed in [5, 7, 11, 19, 31, 37, 43, 59, -1, i32::MIN] {
        assert_eq!(
            Murmur128::hash(&text, seed),
            Murmur128::hash_bytes(text.as_bytes(), seed)
        );
    }
}

fn plain_murmur(key: &[u8], seed: u64) -> (u64, u64) {
    fn fmix(mut k: u64) -> u64 {
        k ^= k >> 33;
        k = k.wrapping_mul(0xff51afd7ed558ccd);
        k ^= k >> 33;
        k = k.wrapping_mul(0xc4ceb9fe1a85ec53);
        k ^= k >> 33;
        k
    }
    let c1: u64 = 0x87c37b91114253d5;
    let c2: u64 = 0x4cf5ad432745937f;
    let mut h1 = seed;
    let mut h2 = seed;
    let mut chunks = key.chunks_exact(16);
    for block in &mut chunks {
        let mut k1 = u64::from_le_bytes(block[0..8].try_into().unwrap());
        let mut k2 = u64::from_le_bytes(block[8..16].try_into().unwrap());
        k1 = k1.wrapping_mul(c1).rotate_left(31).wrapping_mul(c2);
        h1 ^= k1;
        h1 = h1.rotate_left(27).wrapping_add(h2).wrapping_mul(5).wrapping_add(0x52dce729);
        k2 = k2.wrapping_mul(c2).rotate_left(33).wrapping_mul(c1);
        h2 ^= k2;
        h2 = h2.rotate_left(31).wrapping_add(h1).wrapping_mul(5).wrapping_add(0x38495ab5);
    }
    let tail = chunks.remainder();
    let mut k1: u64 = 0;
    let mut k2: u64 = 0;
    for (i, byte) in tail.iter().enumerate() {
        if i < 8 {
            k1 |= (*byte as u64) << (8 * i);
        } else {
            k2 |= (*byte as u64) << (8 * (i - 8));
        }
    }
    if tail.len() > 8 {
        h2 ^= k2.wrapping_mul(c2).rotate_left(33).wrapping_mul(c1);
    }
    if !tail.is_empty() {
        h1 ^= k1.wrapping_mul(c1).rotate_left(31).wrapping_mul(c2);
    }
    h1 ^= key.len() as u64;
    h2 ^= key.len() as u64;
    h1 = h1.wrapping_add(h2);
    h2 = h2.wrapping_add(h1);
    h1 = fmix(h1);
    h2 = fmix(h2);
    h1 = h1.wrapping_add(h2);
    h2 = h2.wrapping_add(h1);
    (h1, h2)
}

#[test]
fn hash_is_the_sum_of_the_halves_cut_to_32_bits() {
    let text: Vec<u8> = (0..100u8).map(|i| i.wrapping_mul(37).wrapping_add(200)).collect();
    for len in 0..text.len() {
        for seed in [5i32, 59, -7] {
            let halves = plain_murmur(&text[..len], seed as i64 as u64);
            let expected = halves.0.wrapping_add(halves.1) as i32;
            assert_eq!(Murmur128::hash_bytes(&text[..len], seed), expected);
        }
    }
}

#[test]
fn every_added_path_tests_positive() {
    let config = TsFileConfig::default();
    let paths: Vec<Vec<u8>> = (0..500)
        .map(|i| format!("root.sg.d{}.s{}", i % 17, i).into_bytes())
        .collect();
    let filter = BloomFilter::build(&paths, &config);
    for path in &paths {
        assert!(filter.contains(path));
    }
    let misses = (0..1000)
        .filter(|i| filter.contains(format!("other.d{}.s{}", i, i).as_bytes()))
        .count();
    assert!(misses < 200);
}

#[test]
fn empty_filter_contains_nothing() {
    let filter = BloomFilter::new(256, 5, &[5, 7, 11, 19, 31, 37, 43, 59]);
    assert!(!filter.contains(b"d1.s1"));
    let none = BloomFilter::new(8, 0, &[5, 7, 11, 19, 31, 37, 43, 59]);
    assert!(none.contains(b"d1.s1"));
}

fn read_var(bytes: &[u8], at: &mut usize) -> u32 {
    let decoded = tsfile_writer::utils::read_var_u32(&bytes[*at..]).unwrap();
    *at += decoded.1;
    decoded.0
}

#[test]
fn stored_filter_reads_back_bit_by_bit() {
    let mut filter = BloomFilter::new(70, 3, &[5, 7, 11, 19, 31, 37, 43, 59]);
    filter.add(b"d1.s1");
    filter.add(b"d1.s2");
    filter.add(b"d2.s1");
    let mut bytes: Vec<u8> = vec![];
    filter.serialize(&mut bytes);
    let mut at = 0;
    let length = read_var(&bytes, &mut at) as usize;
    assert_eq!(length, 9);
    let stored = &bytes[at..at + length];
    assert_eq!(stored, filter.serialize_bits().as_slice());
    at += length;
    assert_eq!(read_var(&bytes, &mut at), 70);
    assert_eq!(read_var(&bytes, &mut at), 3);
    assert_eq!(at, bytes.len());
    let read_bit = |i: usize| (stored[i / 8] >> (i % 8)) & 1 == 1;
    let mut rebuilt = BloomFilter::new(70, 3, &[5, 7, 11, 19, 31, 37, 43, 59]);
    for path in [&b"d1.s1"[..], b"d1.s2", b"d2.s1"] {
        for seed in [5, 7, 11] {
            assert!(read_bit(HashFunction::new(70, seed).hash(path)));
        }
        rebuilt.add(path);
    }
    assert_eq!(rebuilt.serialize_bits(), stored);
    let set = (0..70).filter(|i| read_bit(*i)).count();
    assert!(set >= 3 && set <= 9);
    for i in 70..72 {
        assert!(!read_bit(i));
    }
}

#[test]
fn filter_size_follows_the_number_of_paths() {
    let config = TsFileConfig::default();
    let size_of = |n: usize| {
        let mut bytes: Vec<u8> = vec![];
        BloomFilter::empty_filter(&config, n).serialize(&mut bytes);
        let mut at = 0;
        let length = read_var(&bytes, &mut at) as usize;
        at += length;
        let size = read_var(&bytes, &mut at);
        let hashes = read_var(&bytes, &mut at);
        assert_eq!(length, (size as usize + 7) / 8);
        (size, hashes)
    };
    assert_eq!(size_of(0), (256, 5));
    assert_eq!(size_of(1), (256, 5));
    assert_eq!(size_of(41), (256, 5));
    assert_eq!(size_of(42), (262, 5));
    assert_eq!(size_of(1000), (6236, 5));
    assert_eq!(size_of(100000), (623523, 5));
    let mut few = config;
    few.maximal_hash_function_size = 3;
    let mut bytes: Vec<u8> = vec![];
    BloomFilter::empty_filter(&few, 1).serialize(&mut bytes);
    assert_eq!(*bytes.last().unwrap(), 3);
}

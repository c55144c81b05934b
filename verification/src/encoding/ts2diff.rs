//! Blocks of the delta encoding: a header of four big-endian fields and the
//! deltas of the block, each lowered by the least one and packed in as many
//! bits as the largest needs.
use crate::bit_packing::{
    bytes_for_bits, fits_width, holds_value, pack_bits, pack_values, packed, read_bits,
    stream_bit,
};
use crate::utils::{
    be_bytes_i32, be_bytes_i64, be_bytes_u32, i32_bits, i32_to_bits, i64_bits, i64_to_bits,
    write_bytes, write_i32_be, write_i64_be, write_u32_be,
};
use vstd::prelude::*;
use vstd::std_specs::bits::{axiom_u64_leading_zeros, u64_leading_zeros};

verus! {

/// The number of bits that `v` needs: 64 less its leading zeros.
pub open spec fn bit_width(v: u64) -> int {
    64 - u64_leading_zeros(v)
}

/// The largest bit width among `values`; 0 when there are none.
pub open spec fn max_bit_width(values: Seq<u64>) -> int
    decreases values.len(),
{
    if values.len() == 0 {
        0
    } else {
        let rest = max_bit_width(values.drop_last());
        if bit_width(values.last()) > rest {
            bit_width(values.last())
        } else {
            rest
        }
    }
}

/// The deltas of a 64-bit block, each lowered by `min_delta` in wrapping
/// arithmetic, as unsigned bit patterns.
pub open spec fn adjusted_deltas_64(deltas: Seq<i64>, min_delta: i64) -> Seq<u64> {
    Seq::new(deltas.len(), |i: int| i64_bits(deltas[i].wrapping_sub(min_delta)))
}

/// The deltas of a 32-bit block, each lowered by `min_delta` in wrapping
/// arithmetic, as unsigned bit patterns.
pub open spec fn adjusted_deltas_32(deltas: Seq<i32>, min_delta: i32) -> Seq<u64> {
    Seq::new(deltas.len(), |i: int| i32_bits(deltas[i].wrapping_sub(min_delta)) as u64)
}

/// The bytes of one block of 64-bit values: the count of deltas, the bit
/// width, the least delta and the first value, then the packed deltas.
pub open spec fn block_bytes_64(first: i64, min_delta: i64, deltas: Seq<i64>) -> Seq<u8> {
    let adjusted = adjusted_deltas_64(deltas, min_delta);
    let width = max_bit_width(adjusted);
    be_bytes_u32(deltas.len() as u32) + be_bytes_u32(width as u32) + be_bytes_i64(min_delta)
        + be_bytes_i64(first) + packed(adjusted, width)
}

/// The bytes of one block of 32-bit values: the count of deltas, the bit
/// width, the least delta and the first value, then the packed deltas.
pub open spec fn block_bytes_32(first: i32, min_delta: i32, deltas: Seq<i32>) -> Seq<u8> {
    let adjusted = adjusted_deltas_32(deltas, min_delta);
    let width = max_bit_width(adjusted);
    be_bytes_u32(deltas.len() as u32) + be_bytes_u32(width as u32) + be_bytes_i32(min_delta)
        + be_bytes_i32(first) + packed(adjusted, width)
}

proof fn lemma_fits_wider(v: u64, narrow: u64, wide: u64)
    by (bit_vector)
    requires
        narrow <= wide,
        wide < 64,
        v >> narrow == 0,
    ensures
        v >> wide == 0,
{
}

/// A value fits in its bit width, and in any larger width.
pub proof fn lemma_fits_bit_width(v: u64, width: int)
    requires
        bit_width(v) <= width,
    ensures
        0 <= bit_width(v) <= 64,
        fits_width(v, width),
{
    axiom_u64_leading_zeros(v);
    if width < 64 {
        let narrow = (64 - u64_leading_zeros(v)) as u64;
        lemma_fits_wider(v, narrow, width as u64);
    }
}

/// Every value fits in the largest bit width of its sequence, and is zero
/// where that width is zero.
pub proof fn lemma_max_bit_width(values: Seq<u64>)
    ensures
        0 <= max_bit_width(values) <= 64,
        forall|i: int| 0 <= i < values.len() ==> fits_width(#[trigger] values[i], max_bit_width(values)),
        max_bit_width(values) == 0 ==> forall|i: int| 0 <= i < values.len() ==> #[trigger] values[i] == 0,
    decreases values.len(),
{
    if values.len() > 0 {
        lemma_max_bit_width(values.drop_last());
        axiom_u64_leading_zeros(values.last());
        if max_bit_width(values) == 0 {
            assert forall|i: int| 0 <= i < values.len() implies #[trigger] values[i] == 0 by {
                if i < values.len() - 1 {
                    assert(values[i] == values.drop_last()[i]);
                }
            }
        }
        assert forall|i: int| 0 <= i < values.len() implies fits_width(
            #[trigger] values[i],
            max_bit_width(values),
        ) by {
            if i < values.len() - 1 {
                assert(values[i] == values.drop_last()[i]);
                assert(fits_width(values.drop_last()[i], max_bit_width(values.drop_last())));
                lemma_widen(values[i], max_bit_width(values.drop_last()), max_bit_width(values));
            } else {
                lemma_fits_bit_width(values[i], max_bit_width(values));
            }
        }
    }
}

proof fn lemma_widen(v: u64, narrow: int, wide: int)
    requires
        0 <= narrow <= wide,
        fits_width(v, narrow),
    ensures
        fits_width(v, wide),
{
    if wide < 64 {
        lemma_fits_wider(v, narrow as u64, wide as u64);
    }
}

/// The value that a 64-bit pattern stands for in two's complement.
pub open spec fn i64_from_bits(bits: u64) -> i64 {
    if bits < 0x8000_0000_0000_0000 {
        bits as i64
    } else {
        (bits - 0x1_0000_0000_0000_0000) as i64
    }
}

/// The value that a 32-bit pattern stands for in two's complement.
pub open spec fn i32_from_bits(bits: u32) -> i32 {
    if bits < 0x8000_0000 {
        bits as i32
    } else {
        (bits - 0x1_0000_0000) as i32
    }
}

/// A block of 64-bit values has its four header fields in its first 24
/// bytes and its packed deltas behind them, and each delta is got back from
/// the bits at its place: they spell the delta less the least delta.
pub proof fn lemma_block_round_trip_64(first: i64, min_delta: i64, deltas: Seq<i64>, i: int)
    requires
        0 <= i < deltas.len(),
    ensures
        ({
            let block = block_bytes_64(first, min_delta, deltas);
            let width = max_bit_width(adjusted_deltas_64(deltas, min_delta));
            let read = read_bits(block.subrange(24, block.len() as int), i * width, width);
            &&& block.len() >= 24
            &&& block.subrange(0, 4) == be_bytes_u32(deltas.len() as u32)
            &&& block.subrange(4, 8) == be_bytes_u32(width as u32)
            &&& block.subrange(8, 16) == be_bytes_i64(min_delta)
            &&& block.subrange(16, 24) == be_bytes_i64(first)
            &&& 0 <= read <= u64::MAX
            &&& i64_from_bits(read as u64).wrapping_add(min_delta) == deltas[i]
        }),
{
    let adjusted = adjusted_deltas_64(deltas, min_delta);
    let width = max_bit_width(adjusted);
    let block = block_bytes_64(first, min_delta, deltas);
    let head = be_bytes_u32(deltas.len() as u32) + be_bytes_u32(width as u32) + be_bytes_i64(
        min_delta,
    ) + be_bytes_i64(first);
    crate::utils::lemma_be_bytes_len(deltas.len() as u32, i64_bits(min_delta));
    crate::utils::lemma_be_bytes_len(width as u32, i64_bits(first));
    assert(head.len() == 24);
    assert(block.subrange(0, 4) =~= be_bytes_u32(deltas.len() as u32));
    assert(block.subrange(4, 8) =~= be_bytes_u32(width as u32));
    assert(block.subrange(8, 16) =~= be_bytes_i64(min_delta));
    assert(block.subrange(16, 24) =~= be_bytes_i64(first));
    assert(block.subrange(24, block.len() as int) =~= packed(adjusted, width));
    lemma_max_bit_width(adjusted);
    assert(adjusted[i] == i64_bits(deltas[i].wrapping_sub(min_delta)));
    if width > 0 {
        crate::bit_packing::lemma_pack_round_trip(adjusted, width, i);
    } else {
        assert(adjusted[i] == 0);
    }
}

/// A block of 32-bit values has its four header fields in its first 16
/// bytes and its packed deltas behind them, and each delta is got back from
/// the bits at its place: they spell the delta less the least delta.
pub proof fn lemma_block_round_trip_32(first: i32, min_delta: i32, deltas: Seq<i32>, i: int)
    requires
        0 <= i < deltas.len(),
    ensures
        ({
            let block = block_bytes_32(first, min_delta, deltas);
            let width = max_bit_width(adjusted_deltas_32(deltas, min_delta));
            let read = read_bits(block.subrange(16, block.len() as int), i * width, width);
            &&& block.len() >= 16
            &&& block.subrange(0, 4) == be_bytes_u32(deltas.len() as u32)
            &&& block.subrange(4, 8) == be_bytes_u32(width as u32)
            &&& block.subrange(8, 12) == be_bytes_i32(min_delta)
            &&& block.subrange(12, 16) == be_bytes_i32(first)
            &&& 0 <= read <= u32::MAX
            &&& i32_from_bits(read as u32).wrapping_add(min_delta) == deltas[i]
        }),
{
    let adjusted = adjusted_deltas_32(deltas, min_delta);
    let width = max_bit_width(adjusted);
    let block = block_bytes_32(first, min_delta, deltas);
    let head = be_bytes_u32(deltas.len() as u32) + be_bytes_u32(width as u32) + be_bytes_i32(
        min_delta,
    ) + be_bytes_i32(first);
    crate::utils::lemma_be_bytes_len(deltas.len() as u32, 0);
    crate::utils::lemma_be_bytes_len(width as u32, 0);
    crate::utils::lemma_be_bytes_len(i32_bits(min_delta), 0);
    crate::utils::lemma_be_bytes_len(i32_bits(first), 0);
    assert(head.len() == 16);
    assert(block.subrange(0, 4) =~= be_bytes_u32(deltas.len() as u32));
    assert(block.subrange(4, 8) =~= be_bytes_u32(width as u32));
    assert(block.subrange(8, 12) =~= be_bytes_i32(min_delta));
    assert(block.subrange(12, 16) =~= be_bytes_i32(first));
    assert(block.subrange(16, block.len() as int) =~= packed(adjusted, width));
    lemma_max_bit_width(adjusted);
    assert(adjusted[i] == i32_bits(deltas[i].wrapping_sub(min_delta)) as u64);
    if width > 0 {
        crate::bit_packing::lemma_pack_round_trip(adjusted, width, i);
    } else {
        assert(adjusted[i] == 0);
    }
}

/// The number of bits that `v` needs.
pub fn get_value_width(v: u64) -> (width: u32)
    ensures
        width as int == bit_width(v),
        width <= 64,
{
    proof {
        axiom_u64_leading_zeros(v);
    }
    64 - v.leading_zeros()
}

/// The largest bit width among `values`.
pub fn calculate_bit_widths_for_delta_block_buffer(values: &Vec<u64>) -> (width: u32)
    ensures
        width as int == max_bit_width(values@),
        width <= 64,
{
    let mut width: u32 = 0;
    let mut i: usize = 0;
    while i < values.len()
        invariant
            i <= values@.len(),
            width as int == max_bit_width(values@.take(i as int)),
            width <= 64,
        decreases values@.len() - i,
    {
        let value_width = get_value_width(values[i]);
        proof {
            assert(values@.take(i + 1).drop_last() =~= values@.take(i as int));
        }
        if value_width > width {
            width = value_width;
        }
        i = i + 1;
    }
    proof {
        assert(values@.take(i as int) =~= values@);
    }
    width
}

/// Appends the block of 64-bit values that starts with `first` and goes on
/// by `deltas`.
pub fn encode_block_64(first: i64, min_delta: i64, deltas: &Vec<i64>, buffer: &mut Vec<u8>)
    requires
        deltas@.len() <= u32::MAX,
        deltas@.len() * 64 + 64 <= usize::MAX,
    ensures
        final(buffer)@ == old(buffer)@ + block_bytes_64(first, min_delta, deltas@),
{
    let mut adjusted: Vec<u64> = Vec::new();
    let mut i: usize = 0;
    while i < deltas.len()
        invariant
            i <= deltas@.len(),
            adjusted@ == adjusted_deltas_64(deltas@.take(i as int), min_delta),
        decreases deltas@.len() - i,
    {
        adjusted.push(i64_to_bits(deltas[i].wrapping_sub(min_delta)));
        i = i + 1;
        proof {
            assert(adjusted@ =~= adjusted_deltas_64(deltas@.take(i as int), min_delta));
        }
    }
    proof {
        assert(deltas@.take(i as int) =~= deltas@);
        lemma_max_bit_width(adjusted@);
    }
    let width = calculate_bit_widths_for_delta_block_buffer(&adjusted);
    write_u32_be(deltas.len() as u32, buffer);
    write_u32_be(width, buffer);
    write_i64_be(min_delta, buffer);
    write_i64_be(first, buffer);
    let payload = pack_values(&adjusted, width);
    write_bytes(payload.as_slice(), buffer);
    proof {
        assert(buffer@ =~= old(buffer)@ + block_bytes_64(first, min_delta, deltas@));
    }
}

/// Appends the block of 32-bit values that starts with `first` and goes on
/// by `deltas`.
pub fn encode_block_32(first: i32, min_delta: i32, deltas: &Vec<i32>, buffer: &mut Vec<u8>)
    requires
        deltas@.len() <= u32::MAX,
        deltas@.len() * 64 + 64 <= usize::MAX,
    ensures
        final(buffer)@ == old(buffer)@ + block_bytes_32(first, min_delta, deltas@),
{
    let mut adjusted: Vec<u64> = Vec::new();
    let mut i: usize = 0;
    while i < deltas.len()
        invariant
            i <= deltas@.len(),
            adjusted@ == adjusted_deltas_32(deltas@.take(i as int), min_delta),
        decreases deltas@.len() - i,
    {
        adjusted.push(i32_to_bits(deltas[i].wrapping_sub(min_delta)) as u64);
        i = i + 1;
        proof {
            assert(adjusted@ =~= adjusted_deltas_32(deltas@.take(i as int), min_delta));
        }
    }
    proof {
        assert(deltas@.take(i as int) =~= deltas@);
        lemma_max_bit_width(adjusted@);
    }
    let width = calculate_bit_widths_for_delta_block_buffer(&adjusted);
    write_u32_be(deltas.len() as u32, buffer);
    write_u32_be(width, buffer);
    write_i32_be(min_delta, buffer);
    write_i32_be(first, buffer);
    let payload = pack_values(&adjusted, width);
    write_bytes(payload.as_slice(), buffer);
    proof {
        assert(buffer@ =~= old(buffer)@ + block_bytes_32(first, min_delta, deltas@));
    }
}

/// Writes the `width` low bits of `number` into the stream `result` from
/// bit `pos` on, most significant bit first. What the stream held before
/// `pos` stays; what it held from `pos` on is replaced.
pub fn x_to_bytes(number: i64, result: &mut Vec<u8>, pos: usize, width: u32)
    requires
        width <= 64,
        number >= 0,
        fits_width(number as u64, width as int),
        pos / 8 <= old(result).len(),
        pos + 64 <= usize::MAX,
    ensures
        width == 0 ==> final(result)@ == old(result)@,
        width > 0 ==> final(result)@.len() == bytes_for_bits(pos + width),
        width > 0 ==> forall|j: int|
            0 <= j < pos ==> stream_bit(final(result)@, j) == stream_bit(old(result)@, j),
        width > 0 ==> holds_value(final(result)@, pos as int, width as int, number as u64),
        width > 0 ==> forall|j: int| pos + width <= j ==> !stream_bit(final(result)@, j),
{
    pack_bits(number as u64, result, pos, width);
}

} // verus!

//! Packing of fixed-width unsigned values into a byte stream, most
//! significant bit first and contiguous across byte boundaries.
use vstd::prelude::*;

verus! {

/// Bit `k` of `v`, counted from the least significant bit.
pub open spec fn bit_of(v: u64, k: int) -> bool {
    0 <= k < 64 && (v >> (k as u64)) & 1 == 1
}

/// Bit `j` of a byte stream: streams are read byte by byte, and inside a
/// byte from the most significant bit down.
pub open spec fn stream_bit(bytes: Seq<u8>, j: int) -> bool {
    0 <= j < 8 * bytes.len() && bit_of(bytes[j / 8] as u64, 7 - j % 8)
}

/// Whether `v` can be written in `width` bits.
pub open spec fn fits_width(v: u64, width: int) -> bool {
    width >= 64 || (0 <= width && v >> (width as u64) == 0)
}

/// Whether bit `k` of the slot that starts at bit `pos` of the stream is the
/// bit of `v` that belongs there when `v` is written in `width` bits.
pub open spec fn slot_bit_matches(bytes: Seq<u8>, pos: int, width: int, v: u64, k: int) -> bool {
    stream_bit(bytes, pos + k) == bit_of(v, width - 1 - k)
}

/// Whether the `width` bits from bit `pos` of the stream spell `v`, most
/// significant bit first.
pub open spec fn holds_value(bytes: Seq<u8>, pos: int, width: int, v: u64) -> bool {
    forall|k: int| 0 <= k < width ==> #[trigger] slot_bit_matches(bytes, pos, width, v, k)
}

/// The number of bytes that `bits` bits occupy.
pub open spec fn bytes_for_bits(bits: int) -> int {
    (bits + 7) / 8
}

/// The value that the `width` bits from bit `pos` of the stream spell,
/// most significant bit first.
pub open spec fn read_bits(bytes: Seq<u8>, pos: int, width: int) -> int
    decreases width,
{
    if width <= 0 {
        0
    } else {
        2 * read_bits(bytes, pos, width - 1) + if stream_bit(bytes, pos + width - 1) {
            1int
        } else {
            0int
        }
    }
}

/// Bit `j` of the stream that holds `values`, each in `width` bits, one
/// after the other.
pub open spec fn packed_bit(values: Seq<u64>, width: int, j: int) -> bool {
    width > 0 && 0 <= j < values.len() * width && bit_of(values[j / width], width - 1 - j % width)
}

/// A bit as a number.
pub open spec fn bit_value(b: bool) -> u64 {
    if b {
        1
    } else {
        0
    }
}

/// Byte `i` of the stream that holds `values`: its eight bits, the first
/// one in the highest place.
pub open spec fn packed_byte(values: Seq<u64>, width: int, i: int) -> u8 {
    ((bit_value(packed_bit(values, width, 8 * i)) << 7) | (bit_value(
        packed_bit(values, width, 8 * i + 1),
    ) << 6) | (bit_value(packed_bit(values, width, 8 * i + 2)) << 5) | (bit_value(
        packed_bit(values, width, 8 * i + 3),
    ) << 4) | (bit_value(packed_bit(values, width, 8 * i + 4)) << 3) | (bit_value(
        packed_bit(values, width, 8 * i + 5),
    ) << 2) | (bit_value(packed_bit(values, width, 8 * i + 6)) << 1) | bit_value(
        packed_bit(values, width, 8 * i + 7),
    )) as u8
}

/// The byte stream that holds `values`, each in `width` bits, one after the
/// other; the unused bits of the last byte are zero.
pub open spec fn packed(values: Seq<u64>, width: int) -> Seq<u8> {
    Seq::new(
        if width > 0 {
            bytes_for_bits(values.len() * width) as nat
        } else {
            0
        },
        |i: int| packed_byte(values, width, i),
    )
}

proof fn lemma_compose_byte(b0: u64, b1: u64, b2: u64, b3: u64, b4: u64, b5: u64, b6: u64, b7: u64)
    by (bit_vector)
    requires
        b0 <= 1,
        b1 <= 1,
        b2 <= 1,
        b3 <= 1,
        b4 <= 1,
        b5 <= 1,
        b6 <= 1,
        b7 <= 1,
    ensures
        ({
            let v = (b0 << 7) | (b1 << 6) | (b2 << 5) | (b3 << 4) | (b4 << 3) | (b5 << 2) | (b6
                << 1) | b7;
            &&& v < 256
            &&& (v >> 7) & 1 == b0
            &&& (v >> 6) & 1 == b1
            &&& (v >> 5) & 1 == b2
            &&& (v >> 4) & 1 == b3
            &&& (v >> 3) & 1 == b4
            &&& (v >> 2) & 1 == b5
            &&& (v >> 1) & 1 == b6
            &&& (v >> 0) & 1 == b7
        }),
{
}

proof fn lemma_byte_from_its_bits(a: u64, b: u64)
    by (bit_vector)
    requires
        a < 256,
        b < 256,
        (a >> 7) & 1 == (b >> 7) & 1,
        (a >> 6) & 1 == (b >> 6) & 1,
        (a >> 5) & 1 == (b >> 5) & 1,
        (a >> 4) & 1 == (b >> 4) & 1,
        (a >> 3) & 1 == (b >> 3) & 1,
        (a >> 2) & 1 == (b >> 2) & 1,
        (a >> 1) & 1 == (b >> 1) & 1,
        (a >> 0) & 1 == (b >> 0) & 1,
    ensures
        a == b,
{
}

proof fn lemma_one_bit(v: u64, k: u64)
    by (bit_vector)
    requires
        k < 64,
    ensures
        (v >> k) & 1 == 0 || (v >> k) & 1 == 1,
{
}

/// Each bit of the packed stream is the bit of the value that lies there.
pub proof fn lemma_packed_bits(values: Seq<u64>, width: int, j: int)
    requires
        0 < width <= 64,
        0 <= j < 8 * packed(values, width).len(),
    ensures
        stream_bit(packed(values, width), j) == packed_bit(values, width, j),
{
    let i = j / 8;
    let b0 = bit_value(packed_bit(values, width, 8 * i));
    let b1 = bit_value(packed_bit(values, width, 8 * i + 1));
    let b2 = bit_value(packed_bit(values, width, 8 * i + 2));
    let b3 = bit_value(packed_bit(values, width, 8 * i + 3));
    let b4 = bit_value(packed_bit(values, width, 8 * i + 4));
    let b5 = bit_value(packed_bit(values, width, 8 * i + 5));
    let b6 = bit_value(packed_bit(values, width, 8 * i + 6));
    let b7 = bit_value(packed_bit(values, width, 8 * i + 7));
    lemma_compose_byte(b0, b1, b2, b3, b4, b5, b6, b7);
    let v = (b0 << 7) | (b1 << 6) | (b2 << 5) | (b3 << 4) | (b4 << 3) | (b5 << 2) | (b6 << 1) | b7;
    assert(packed(values, width)[i] == v as u8);
    assert((v as u8) as u64 == v);
}

proof fn lemma_same_bit(a: Seq<u8>, b: Seq<u8>, i: int, k: u64)
    requires
        a.len() == b.len(),
        0 <= i < a.len(),
        k < 8,
        forall|j: int| 0 <= j < 8 * a.len() ==> stream_bit(a, j) == stream_bit(b, j),
    ensures
        ((a[i] as u64) >> k) & 1 == ((b[i] as u64) >> k) & 1,
{
    let j = 8 * i + (7 - k);
    assert(j / 8 == i && j % 8 == 7 - k);
    assert(stream_bit(a, j) == stream_bit(b, j));
    lemma_one_bit(a[i] as u64, k);
    lemma_one_bit(b[i] as u64, k);
}

/// Two streams of one length with the same bits are the same bytes.
pub proof fn lemma_streams_equal(a: Seq<u8>, b: Seq<u8>)
    requires
        a.len() == b.len(),
        forall|j: int| 0 <= j < 8 * a.len() ==> stream_bit(a, j) == stream_bit(b, j),
    ensures
        a == b,
{
    assert forall|i: int| 0 <= i < a.len() implies a[i] == b[i] by {
        let x = a[i] as u64;
        let y = b[i] as u64;
        lemma_same_bit(a, b, i, 7);
        lemma_same_bit(a, b, i, 6);
        lemma_same_bit(a, b, i, 5);
        lemma_same_bit(a, b, i, 4);
        lemma_same_bit(a, b, i, 3);
        lemma_same_bit(a, b, i, 2);
        lemma_same_bit(a, b, i, 1);
        lemma_same_bit(a, b, i, 0);
        lemma_byte_from_its_bits(x, y);
    }
    assert(a =~= b);
}

proof fn lemma_shift_step(v: u64, s: u64)
    by (bit_vector)
    requires
        s < 63,
    ensures
        v >> s == 2 * (v >> (s + 1)) + ((v >> s) & 1),
        (v >> s) & 1 <= 1,
{
}

proof fn lemma_top_bit(v: u64)
    by (bit_vector)
    ensures
        v >> 63 == (v >> 63) & 1,
        v >> 0 == v,
{
}

/// If the stream spells `v` in the `width` bits from `pos`, reading those
/// bits gives the top `taken` bits of `v` after `taken` steps.
proof fn lemma_read_prefix(bytes: Seq<u8>, pos: int, width: int, v: u64, taken: int)
    requires
        0 <= taken <= width <= 64,
        fits_width(v, width),
        holds_value(bytes, pos, width, v),
    ensures
        taken == 0 ==> read_bits(bytes, pos, taken) == 0,
        taken > 0 ==> read_bits(bytes, pos, taken) == (v >> ((width - taken) as u64)) as int,
    decreases taken,
{
    if taken > 0 {
        lemma_read_prefix(bytes, pos, width, v, taken - 1);
        let s = (width - taken) as u64;
        assert(slot_bit_matches(bytes, pos, width, v, taken - 1));
        lemma_one_bit(v, s);
        if taken == 1 {
            if width == 64 {
                lemma_top_bit(v);
            } else {
                lemma_shift_step(v, s);
            }
        } else {
            lemma_shift_step(v, s);
        }
    }
}

/// Reading `width` bits where a stream spells `v` gives `v` back.
pub proof fn lemma_read_value(bytes: Seq<u8>, pos: int, width: int, v: u64)
    requires
        0 <= width <= 64,
        fits_width(v, width),
        holds_value(bytes, pos, width, v),
    ensures
        read_bits(bytes, pos, width) == v,
{
    lemma_read_prefix(bytes, pos, width, v, width);
    lemma_top_bit(v);
    if width == 0 {
        assert(v >> 0u64 == 0);
    }
}

/// Each value of a packed stream is read back from the offset at which it
/// was packed.
pub proof fn lemma_pack_round_trip(values: Seq<u64>, width: int, i: int)
    requires
        0 < width <= 64,
        0 <= i < values.len(),
        forall|n: int| 0 <= n < values.len() ==> fits_width(#[trigger] values[n], width),
    ensures
        read_bits(packed(values, width), i * width, width) == values[i],
{
    let bytes = packed(values, width);
    assert forall|k: int| 0 <= k < width implies #[trigger] slot_bit_matches(
        bytes,
        i * width,
        width,
        values[i],
        k,
    ) by {
        let j = i * width + k;
        lemma_slot(values.len() as int, width, i, k);
        lemma_packed_bits(values, width, j);
    }
    lemma_read_value(bytes, i * width, width, values[i]);
}

/// Bit `k` of slot `i` lies in slot `i`, and inside the stream's bytes.
proof fn lemma_slot(n: int, width: int, i: int, k: int)
    requires
        0 < width,
        0 <= i < n,
        0 <= k < width,
    ensures
        (i * width + k) / width == i,
        (i * width + k) % width == k,
        0 <= i * width + k < n * width,
        i * width + k < 8 * bytes_for_bits(n * width),
{
    vstd::arithmetic::div_mod::lemma_fundamental_div_mod_converse(i * width + k, width, i, k);
    assert(i * width + k < n * width) by (nonlinear_arith)
        requires
            0 <= i < n,
            0 <= k < width,
    ;
    assert(0 <= i * width) by (nonlinear_arith)
        requires
            0 <= i,
            0 < width,
    ;
}

/// The byte that results from keeping the first `used` bits of `old` and
/// laying the `take` bits of `value` above its lowest `remaining` bits
/// after them.
pub open spec fn merged_byte(old: u64, value: u64, used: u64, take: u64, remaining: u64) -> u64 {
    (old & ((0xFF00u64 >> used) & 0xFF)) | (((value >> remaining) & (0xFFu64 >> ((8 - take) as u64)))
        << ((8 - used - take) as u64))
}

proof fn lemma_zero_bits(k: u64)
    by (bit_vector)
    requires
        k < 64,
    ensures
        (0u64 >> k) & 1 == 0,
{
}

proof fn lemma_merge_byte(old: u64, value: u64, used: u64, take: u64, remaining: u64, k: u64)
    by (bit_vector)
    requires
        old < 256,
        used < 8,
        1 <= take,
        used + take <= 8,
        remaining + take <= 64,
        k < 8,
    ensures
        merged_byte(old, value, used, take, remaining) < 256,
        k < used ==> (merged_byte(old, value, used, take, remaining) >> ((7 - k) as u64)) & 1 == (old
            >> ((7 - k) as u64)) & 1,
        used <= k && k < used + take ==> (merged_byte(old, value, used, take, remaining) >> ((7
            - k) as u64)) & 1 == (value >> ((remaining + (used + take - 1 - k)) as u64)) & 1,
        used + take <= k ==> (merged_byte(old, value, used, take, remaining) >> ((7 - k) as u64))
            & 1 == 0,
{
}

/// Writes the `width` low bits of `value` into the stream `result` from bit
/// `pos` on, most significant bit first. What the stream held before `pos`
/// stays; whatever it held from `pos` on is replaced, and the stream ends
/// with the byte that takes the last bit written, its unused bits zero.
pub fn pack_bits(value: u64, result: &mut Vec<u8>, pos: usize, width: u32)
    requires
        width <= 64,
        fits_width(value, width as int),
        pos / 8 <= old(result).len(),
        pos + 64 <= usize::MAX,
    ensures
        width == 0 ==> final(result)@ == old(result)@,
        width > 0 ==> final(result)@.len() == bytes_for_bits(pos + width),
        width > 0 ==> forall|j: int|
            0 <= j < pos ==> stream_bit(final(result)@, j) == stream_bit(old(result)@, j),
        width > 0 ==> holds_value(final(result)@, pos as int, width as int, value),
        width > 0 ==> forall|j: int| pos + width <= j ==> !stream_bit(final(result)@, j),
{
    if width == 0 {
        return ;
    }
    let mut index: usize = pos / 8;
    let mut used: u32 = (pos % 8) as u32;
    let mut remaining: u32 = width;
    if index < result.len() {
        result.truncate(index + 1);
    } else {
        result.push(0);
    }
    proof {
        assert forall|j: int| 0 <= j < pos implies stream_bit(result@, j) == stream_bit(
            old(result)@,
            j,
        ) by {
            assert(j / 8 <= index);
            if j / 8 >= old(result)@.len() {
                lemma_zero_bits((7 - j % 8) as u64);
            }
        }
    }
    while remaining > 0
        invariant
            width <= 64,
            fits_width(value, width as int),
            pos + 64 <= usize::MAX,
            0 <= remaining <= width,
            used <= 8,
            result.len() == index + 1,
            8 * index + used == pos + (width - remaining),
            remaining > 0 ==> used < 8,
            remaining == 0 ==> used >= 1,
            remaining == 0 ==> forall|j: int| pos + width <= j ==> !stream_bit(result@, j),
            forall|j: int| 0 <= j < pos ==> stream_bit(result@, j) == stream_bit(old(result)@, j),
            forall|k: int|
                0 <= k < width - remaining ==> #[trigger] slot_bit_matches(
                    result@,
                    pos as int,
                    width as int,
                    value,
                    k,
                ),
        ensures
            remaining == 0,
            result.len() == bytes_for_bits(pos + width),
            forall|j: int| 0 <= j < pos ==> stream_bit(result@, j) == stream_bit(old(result)@, j),
            holds_value(result@, pos as int, width as int, value),
            forall|j: int| pos + width <= j ==> !stream_bit(result@, j),
        decreases remaining,
    {
        let take: u32 = if remaining + used >= 8 {
            8 - used
        } else {
            remaining
        };
        let ghost before = result@;
        let ghost written = width - remaining;
        remaining = remaining - take;
        let current: u64 = result[index] as u64;
        let keep: u64 = (0xFF00u64 >> used) & 0xFF;
        let chunk: u64 = (value >> remaining) & (0xFFu64 >> (8 - take));
        let merged: u64 = (current & keep) | (chunk << (8 - used - take));
        proof {
            lemma_merge_byte(current, value, used as u64, take as u64, remaining as u64, 0);
            assert(merged == merged_byte(current, value, used as u64, take as u64, remaining as u64));
        }
        result[index] = merged as u8;
        proof {
            let after = result@;
            assert forall|j: int| 8 * index <= j < 8 * index + 8 implies (stream_bit(after, j) == (
            if j < 8 * index + used {
                stream_bit(before, j)
            } else if j < 8 * index + used + take {
                bit_of(value, remaining + (8 * index + used + take - 1 - j))
            } else {
                false
            })) by {
                let k = (j - 8 * index) as u64;
                assert(j / 8 == index as int && j % 8 == k as int);
                lemma_merge_byte(current, value, used as u64, take as u64, remaining as u64, k);
                lemma_one_bit(merged, (7 - k) as u64);
                lemma_one_bit(current, (7 - k) as u64);
                if used <= k && k < used + take {
                    lemma_one_bit(value, (remaining + used + take - 1 - k) as u64);
                }
            }
            if remaining == 0 {
                assert forall|j: int| pos + width <= j implies !stream_bit(after, j) by {
                    if j < 8 * after.len() {
                        assert(8 * index <= j < 8 * index + 8);
                    }
                }
            }
            assert forall|j: int| 0 <= j < 8 * index implies stream_bit(after, j) == stream_bit(
                before,
                j,
            ) by {
                assert(j / 8 < index);
            }
            assert forall|j: int| 0 <= j < pos implies stream_bit(after, j) == stream_bit(
                old(result)@,
                j,
            ) by {
                assert(stream_bit(before, j) == stream_bit(old(result)@, j));
                if j >= 8 * index {
                    assert(8 * index <= j < 8 * index + 8);
                    assert(j < 8 * index + used);
                }
            }
            assert forall|k: int| 0 <= k < written + take implies #[trigger] slot_bit_matches(
                after,
                pos as int,
                width as int,
                value,
                k,
            ) by {
                if k < written {
                    assert(slot_bit_matches(before, pos as int, width as int, value, k));
                }
            }
        }
        used = used + take;
        if used == 8 && remaining > 0 {
            let ghost full = result@;
            result.push(0);
            index = index + 1;
            used = 0;
            proof {
                assert forall|j: int| 0 <= j < 8 * index implies stream_bit(result@, j) == stream_bit(
                    full,
                    j,
                ) by {
                    assert(j / 8 < index);
                }
                assert forall|k: int| 0 <= k < width - remaining implies #[trigger] slot_bit_matches(
                    result@,
                    pos as int,
                    width as int,
                    value,
                    k,
                ) by {
                    assert(slot_bit_matches(full, pos as int, width as int, value, k));
                }
                assert forall|j: int| 0 <= j < pos implies stream_bit(result@, j) == stream_bit(
                    old(result)@,
                    j,
                ) by {
                    assert(stream_bit(full, j) == stream_bit(old(result)@, j));
                }
            }
        }
    }
}

/// Packs `values`, each in `width` bits, one after the other into a fresh
/// byte stream.
pub fn pack_values(values: &Vec<u64>, width: u32) -> (stream: Vec<u8>)
    requires
        width <= 64,
        forall|n: int| 0 <= n < values@.len() ==> fits_width(#[trigger] values@[n], width as int),
        values@.len() * 64 + 64 <= usize::MAX,
    ensures
        stream@ == packed(values@, width as int),
{
    let mut stream: Vec<u8> = Vec::new();
    if width == 0 {
        assert(stream@ =~= packed(values@, width as int));
        return stream;
    }
    let mut i: usize = 0;
    while i < values.len()
        invariant
            0 < width <= 64,
            i <= values@.len(),
            values@.len() * 64 + 64 <= usize::MAX,
            forall|n: int| 0 <= n < values@.len() ==> fits_width(#[trigger] values@[n], width as int),
            stream@.len() == bytes_for_bits(i * width),
            forall|j: int|
                0 <= j < i * width ==> stream_bit(stream@, j) == packed_bit(
                    values@,
                    width as int,
                    j,
                ),
            forall|j: int| i * width <= j ==> !stream_bit(stream@, j),
        decreases values@.len() - i,
    {
        let ghost before = stream@;
        assert(i * width <= values@.len() * 64 && i * width >= 0) by (nonlinear_arith)
            requires
                0 <= i < values@.len(),
                0 < width <= 64,
        ;
        assert((i + 1) * width == i * width + width) by (nonlinear_arith);
        let pos: usize = i * (width as usize);
        pack_bits(values[i], &mut stream, pos, width);
        proof {
            assert forall|j: int| 0 <= j < (i + 1) * width implies stream_bit(stream@, j)
                == packed_bit(values@, width as int, j) by {
                if j >= pos {
                    let k = j - pos;
                    lemma_slot(values@.len() as int, width as int, i as int, k);
                    assert(slot_bit_matches(stream@, pos as int, width as int, values@[i as int], k));
                } else {
                    assert(stream_bit(before, j) == packed_bit(values@, width as int, j));
                }
            }
        }
        i = i + 1;
    }
    proof {
        let n = values@.len() as int;
        let expected = packed(values@, width as int);
        assert(stream@.len() == expected.len());
        assert forall|j: int| 0 <= j < 8 * stream@.len() implies stream_bit(stream@, j)
            == stream_bit(expected, j) by {
            lemma_packed_bits(values@, width as int, j);
        }
        lemma_streams_equal(stream@, expected);
    }
    stream
}

} // verus!

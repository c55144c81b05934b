//! Variable-length integers (LEB128, zig-zag for signed values) and
//! big-endian fixed-width integers.
use vstd::prelude::*;

verus! {

/// The unsigned LEB128 form of `n`: seven bits per byte, low-order group
/// first, the high bit of a byte set while more bytes follow.
pub open spec fn var_u32_bytes(n: u32) -> Seq<u8>
    decreases n,
{
    if n < 128 {
        seq![n as u8]
    } else {
        seq![((n % 128) + 128) as u8] + var_u32_bytes(n / 128)
    }
}

/// The zig-zag image of a signed value: 0, -1, 1, -2, ... map to 0, 1, 2, 3, ...
pub open spec fn zigzag(n: i32) -> u32 {
    if n >= 0 {
        (2 * n) as u32
    } else {
        (-2 * n - 1) as u32
    }
}

/// The signed LEB128 form of `n`: the unsigned form of its zig-zag image.
pub open spec fn var_i32_bytes(n: i32) -> Seq<u8> {
    var_u32_bytes(zigzag(n))
}

/// What decoding an unsigned LEB128 value from the front of `bytes` gives:
/// the value and the number of bytes it took, or `None` when the bytes end
/// before the value does or the value does not fit in 32 bits.
pub open spec fn parse_var_u32(bytes: Seq<u8>) -> Option<(u32, nat)> {
    parse_var_u32_from(bytes, 0, 0)
}

/// Decoding continued at byte `used`, with `acc` gathered from the bytes
/// before it.
pub open spec fn parse_var_u32_from(bytes: Seq<u8>, used: nat, acc: nat) -> Option<(u32, nat)>
    decreases bytes.len() - used,
{
    if used >= bytes.len() || used >= 5 {
        None
    } else {
        let b = bytes[used as int];
        let total = acc + (b % 128) as nat * group_weight(used);
        if b < 128 {
            if total <= u32::MAX {
                Some((total as u32, used + 1))
            } else {
                None
            }
        } else {
            parse_var_u32_from(bytes, used + 1, total)
        }
    }
}

/// The weight of the seven-bit group at index `i`: 128 to the power `i`.
pub open spec fn group_weight(i: nat) -> nat
    decreases i,
{
    if i == 0 {
        1
    } else {
        128 * group_weight((i - 1) as nat)
    }
}

/// An unsigned LEB128 value takes between one and five bytes.
pub proof fn lemma_var_u32_len(n: u32)
    ensures
        1 <= var_u32_bytes(n).len() <= 5,
        n < 128 <==> var_u32_bytes(n).len() == 1,
        n < 16384 ==> var_u32_bytes(n).len() <= 2,
        n < 2097152 ==> var_u32_bytes(n).len() <= 3,
        n < 268435456 ==> var_u32_bytes(n).len() <= 4,
{
    reveal_with_fuel(var_u32_bytes, 6);
}

proof fn lemma_group_weight_values()
    ensures
        group_weight(0) == 1,
        group_weight(1) == 128,
        group_weight(2) == 16384,
        group_weight(3) == 2097152,
        group_weight(4) == 268435456,
{
    reveal_with_fuel(group_weight, 6);
}

/// Decoding the bytes of `n`, with anything after them, from a point where
/// `acc` has been gathered from `used` earlier groups, yields `n`'s
/// contribution on top of `acc`.
proof fn lemma_parse_continues(prefix: Seq<u8>, n: u32, rest: Seq<u8>, acc: nat)
    requires
        prefix.len() + var_u32_bytes(n).len() <= 5,
        acc + n as nat * group_weight(prefix.len()) <= u32::MAX,
    ensures
        parse_var_u32_from(prefix + var_u32_bytes(n) + rest, prefix.len(), acc) == Some(
            ((acc + n as nat * group_weight(prefix.len())) as u32, prefix.len() + var_u32_bytes(n).len()),
        ),
    decreases n,
{
    let all = prefix + var_u32_bytes(n) + rest;
    let used = prefix.len();
    lemma_var_u32_len(n);
    assert(all[used as int] == var_u32_bytes(n)[0]);
    if n < 128 {
        assert((n as u8) % 128 == n);
    } else {
        let head = ((n % 128) + 128) as u8;
        let next = prefix.push(head);
        assert(var_u32_bytes(n) == seq![head] + var_u32_bytes(n / 128));
        assert(all =~= next + var_u32_bytes(n / 128) + rest);
        assert(head % 128 == n % 128);
        assert(group_weight(used + 1) == 128 * group_weight(used));
        assert((n / 128) as nat * group_weight(used + 1) + (n % 128) as nat * group_weight(used)
            == n as nat * group_weight(used)) by (nonlinear_arith)
            requires
                group_weight(used + 1) == 128 * group_weight(used),
        ;
        lemma_parse_continues(next, (n / 128) as u32, rest, acc + (n % 128) as nat * group_weight(used));
    }
}

/// Reading back what `write_var_u32` wrote gives the value written, whatever
/// follows it in the buffer.
pub proof fn lemma_var_u32_round_trip(n: u32, rest: Seq<u8>)
    ensures
        parse_var_u32(var_u32_bytes(n) + rest) == Some((n, var_u32_bytes(n).len())),
{
    lemma_var_u32_len(n);
    assert(group_weight(0) == 1);
    assert(n as nat * group_weight(0) == n as nat) by (nonlinear_arith)
        requires
            group_weight(0) == 1,
    ;
    assert(Seq::<u8>::empty() + var_u32_bytes(n) + rest =~= var_u32_bytes(n) + rest);
    lemma_parse_continues(Seq::empty(), n, rest, 0);
}

/// The zig-zag image determines the value.
pub proof fn lemma_zigzag_injective(a: i32, b: i32)
    requires
        zigzag(a) == zigzag(b),
    ensures
        a == b,
{
}

/// Appends the unsigned LEB128 form of `num` to `buffer` and returns the
/// number of bytes appended.
pub fn write_var_u32(num: u32, buffer: &mut Vec<u8>) -> (written: u8)
    ensures
        final(buffer)@ == old(buffer)@ + var_u32_bytes(num),
        written as nat == var_u32_bytes(num).len(),
{
    let mut number: u32 = num;
    let mut position: u8 = 1;
    proof {
        lemma_var_u32_len(num);
    }
    while number >= 128
        invariant
            buffer@ + var_u32_bytes(number) == old(buffer)@ + var_u32_bytes(num),
            position as nat + var_u32_bytes(number).len() == var_u32_bytes(num).len() + 1,
            var_u32_bytes(num).len() <= 5,
        decreases number,
    {
        let ghost before = buffer@;
        let byte: u8 = ((number % 128) + 128) as u8;
        buffer.push(byte);
        proof {
            lemma_var_u32_len((number / 128) as u32);
            assert(var_u32_bytes(number) == seq![byte] + var_u32_bytes(number / 128));
            assert(before.push(byte) + var_u32_bytes(number / 128) =~= before + var_u32_bytes(number));
        }
        number = number / 128;
        position = position + 1;
    }
    let ghost before = buffer@;
    buffer.push(number as u8);
    proof {
        assert(before.push(number as u8) =~= before + var_u32_bytes(number));
    }
    position
}

/// The number of bytes that the unsigned LEB128 form of `num` takes.
pub fn size_var_u32(num: u32) -> (size: u8)
    ensures
        size as nat == var_u32_bytes(num).len(),
{
    proof {
        lemma_var_u32_len(num);
    }
    if num < 128 {
        1
    } else if num < 16384 {
        proof {
            reveal_with_fuel(var_u32_bytes, 3);
        }
        2
    } else if num < 2097152 {
        proof {
            reveal_with_fuel(var_u32_bytes, 4);
        }
        3
    } else if num < 268435456 {
        proof {
            reveal_with_fuel(var_u32_bytes, 5);
        }
        4
    } else {
        proof {
            reveal_with_fuel(var_u32_bytes, 6);
        }
        5
    }
}

/// The zig-zag image of `num`.
pub fn zigzag_encode(num: i32) -> (image: u32)
    ensures
        image == zigzag(num),
{
    if num >= 0 {
        (num as u32) * 2
    } else {
        ((-(num + 1)) as u32) * 2 + 1
    }
}

/// The number of bytes that the signed LEB128 form of `num` takes.
pub fn size_var_i32(num: i32) -> (size: u8)
    ensures
        size as nat == var_i32_bytes(num).len(),
{
    size_var_u32(zigzag_encode(num))
}

/// Appends the signed LEB128 form of `num` to `buffer` and returns the
/// number of bytes appended.
pub fn write_var_i32(num: i32, buffer: &mut Vec<u8>) -> (written: u8)
    ensures
        final(buffer)@ == old(buffer)@ + var_i32_bytes(num),
        written as nat == var_i32_bytes(num).len(),
{
    write_var_u32(zigzag_encode(num), buffer)
}

/// Decodes an unsigned LEB128 value from the front of `buffer`. Returns the
/// value and the number of bytes it took; `None` when the buffer ends inside
/// the value or the value does not fit in 32 bits.
pub fn read_var_u32(buffer: &[u8]) -> (decoded: Option<(u32, usize)>)
    ensures
        match decoded {
            Some((value, used)) => parse_var_u32(buffer@) == Some((value, used as nat)),
            None => parse_var_u32(buffer@) is None,
        },
{
    let mut value: u64 = 0;
    let mut weight: u64 = 1;
    let mut used: usize = 0;
    proof {
        lemma_group_weight_values();
    }
    while used < buffer.len() && used < 5
        invariant
            used <= 5,
            used <= buffer.len(),
            used < 5 ==> weight as nat == group_weight(used as nat) && value < weight,
            weight <= 268435456,
            parse_var_u32(buffer@) == parse_var_u32_from(buffer@, used as nat, value as nat),
        decreases 5 - used,
    {
        let b: u8 = buffer[used];
        assert(((b % 128) as u64) * weight <= 127 * 268435456) by (nonlinear_arith)
            requires
                (b % 128) < 128,
                weight <= 268435456,
        ;
        let total: u64 = value + ((b % 128) as u64) * weight;
        assert(total < 128 * weight) by (nonlinear_arith)
            requires
                total == value + ((b % 128) as u64) * weight,
                value < weight,
                (b % 128) < 128,
        ;
        if b < 128 {
            if total <= 0xFFFF_FFFF {
                return Some((total as u32, used + 1));
            } else {
                return None;
            }
        }
        value = total;
        proof {
            lemma_group_weight_values();
        }
        if used < 4 {
            weight = weight * 128;
        }
        used = used + 1;
    }
    None
}

/// The two's-complement bit pattern of a 64-bit signed value.
pub open spec fn i64_bits(v: i64) -> u64 {
    if v >= 0 {
        v as u64
    } else {
        (v + 0x1_0000_0000_0000_0000) as u64
    }
}

/// The two's-complement bit pattern of a 32-bit signed value.
pub open spec fn i32_bits(v: i32) -> u32 {
    if v >= 0 {
        v as u32
    } else {
        (v + 0x1_0000_0000) as u32
    }
}

/// The four bytes of `v`, most significant first.
pub open spec fn be_bytes_u32(v: u32) -> Seq<u8> {
    seq![
        (v / 0x100_0000) as u8,
        ((v / 0x1_0000) % 0x100) as u8,
        ((v / 0x100) % 0x100) as u8,
        (v % 0x100) as u8,
    ]
}

/// The eight bytes of `v`, most significant first.
pub open spec fn be_bytes_u64(v: u64) -> Seq<u8> {
    be_bytes_u32((v / 0x1_0000_0000) as u32) + be_bytes_u32((v % 0x1_0000_0000) as u32)
}

/// The eight bytes of a signed value in two's complement, most significant
/// first.
pub open spec fn be_bytes_i64(v: i64) -> Seq<u8> {
    be_bytes_u64(i64_bits(v))
}

/// The four bytes of a signed value in two's complement, most significant
/// first.
pub open spec fn be_bytes_i32(v: i32) -> Seq<u8> {
    be_bytes_u32(i32_bits(v))
}

/// Big-endian forms have the length of their width.
pub proof fn lemma_be_bytes_len(narrow: u32, wide: u64)
    ensures
        be_bytes_u32(narrow).len() == 4,
        be_bytes_u64(wide).len() == 8,
{
}

/// The value that four bytes spell, most significant first.
pub open spec fn u32_from_be(bytes: Seq<u8>) -> int {
    bytes[0] * 0x100_0000 + bytes[1] * 0x1_0000 + bytes[2] * 0x100 + bytes[3]
}

/// Four big-endian bytes spell the value they were made from.
pub proof fn lemma_be_bytes_u32_round_trip(v: u32)
    ensures
        be_bytes_u32(v).len() == 4,
        u32_from_be(be_bytes_u32(v)) == v,
{
}

/// An eight-byte big-endian form is eight bytes long, and its halves spell
/// the halves of the value.
pub proof fn lemma_be_bytes_u64_round_trip(v: u64)
    ensures
        be_bytes_u64(v).len() == 8,
        u32_from_be(be_bytes_u64(v).subrange(0, 4)) * 0x1_0000_0000 + u32_from_be(
            be_bytes_u64(v).subrange(4, 8),
        ) == v,
{
    let high = (v / 0x1_0000_0000) as u32;
    let low = (v % 0x1_0000_0000) as u32;
    lemma_be_bytes_u32_round_trip(high);
    lemma_be_bytes_u32_round_trip(low);
    assert(be_bytes_u64(v).subrange(0, 4) =~= be_bytes_u32(high));
    assert(be_bytes_u64(v).subrange(4, 8) =~= be_bytes_u32(low));
}

/// The bit pattern of `v`.
pub fn i64_to_bits(v: i64) -> (bits: u64)
    ensures
        bits == i64_bits(v),
{
    if v >= 0 {
        v as u64
    } else {
        ((v + 1 + i64::MAX) as u64) + 0x8000_0000_0000_0000
    }
}

/// The bit pattern of `v`.
pub fn i32_to_bits(v: i32) -> (bits: u32)
    ensures
        bits == i32_bits(v),
{
    if v >= 0 {
        v as u32
    } else {
        ((v + 1 + i32::MAX) as u32) + 0x8000_0000
    }
}

/// Appends the four bytes of `v`, most significant first.
pub fn write_u32_be(v: u32, buffer: &mut Vec<u8>)
    ensures
        final(buffer)@ == old(buffer)@ + be_bytes_u32(v),
{
    buffer.push((v / 0x100_0000) as u8);
    buffer.push(((v / 0x1_0000) % 0x100) as u8);
    buffer.push(((v / 0x100) % 0x100) as u8);
    buffer.push((v % 0x100) as u8);
    assert(buffer@ =~= old(buffer)@ + be_bytes_u32(v));
}

/// Appends the eight bytes of `v`, most significant first.
pub fn write_u64_be(v: u64, buffer: &mut Vec<u8>)
    ensures
        final(buffer)@ == old(buffer)@ + be_bytes_u64(v),
{
    write_u32_be((v / 0x1_0000_0000) as u32, buffer);
    write_u32_be((v % 0x1_0000_0000) as u32, buffer);
    assert(buffer@ =~= old(buffer)@ + be_bytes_u64(v));
}

/// Appends the eight bytes of `v` in two's complement, most significant
/// first.
pub fn write_i64_be(v: i64, buffer: &mut Vec<u8>)
    ensures
        final(buffer)@ == old(buffer)@ + be_bytes_i64(v),
{
    write_u64_be(i64_to_bits(v), buffer);
}

/// Appends the four bytes of `v` in two's complement, most significant
/// first.
pub fn write_i32_be(v: i32, buffer: &mut Vec<u8>)
    ensures
        final(buffer)@ == old(buffer)@ + be_bytes_i32(v),
{
    write_u32_be(i32_to_bits(v), buffer);
}

/// Appends `bytes` to `buffer`.
pub fn write_bytes(bytes: &[u8], buffer: &mut Vec<u8>)
    ensures
        final(buffer)@ == old(buffer)@ + bytes@,
{
    buffer.extend_from_slice(bytes);
    assert(buffer@ =~= old(buffer)@ + bytes@);
}

/// A size estimate as a 64-bit number: `n`, or the largest 64-bit number
/// when `n` is beyond it.
pub open spec fn saturated(n: int) -> u64 {
    if n > u64::MAX {
        u64::MAX
    } else if n < 0 {
        0
    } else {
        n as u64
    }
}

/// The sum of two size estimates, held at the largest 64-bit number when it
/// is beyond it.
pub fn add_sizes(a: u64, b: u64) -> (sum: u64)
    ensures
        sum == saturated(a + b),
{
    a.saturating_add(b)
}

/// The bytes of a text: its UTF-8 form.
pub open spec fn text_bytes(text: Seq<char>) -> Seq<u8> {
    vstd::utf8::encode_utf8(text)
}

/// Texts with the same bytes are the same text.
pub proof fn lemma_text_bytes_injective(a: Seq<char>, b: Seq<char>)
    requires
        text_bytes(a) == text_bytes(b),
    ensures
        a == b,
{
    vstd::utf8::encode_utf8_decode_utf8(a);
    vstd::utf8::encode_utf8_decode_utf8(b);
}

/// The bytes of a string slice.
pub fn str_bytes<'a>(text: &'a str) -> (bytes: &'a [u8])
    ensures
        bytes@ == text_bytes(text@),
{
    text.as_bytes()
}

/// The bytes of a string.
pub fn string_bytes<'a>(text: &'a String) -> (bytes: &'a [u8])
    ensures
        bytes@ == text_bytes(text@),
{
    text.as_str().as_bytes()
}

/// The low 32 bits of a length.
pub open spec fn low_u32_of(n: int) -> u32 {
    (n % 0x1_0000_0000) as u32
}

/// The low 32 bits of `n`.
pub fn low_u32(n: usize) -> (low: u32)
    ensures
        low == low_u32_of(n as int),
{
    ((n as u64) % 0x1_0000_0000) as u32
}

} // verus!

//! Regrouping of bits: bytes read as a string of bits, highest bit first, and
//! cut into groups of five; groups of five bits put back together into bytes.
use vstd::prelude::*;

verus! {

/// Binary digit `s` of `x`, digit 0 being the lowest: `x / 2^s % 2`, written
/// out for the eight digits of a byte. Any higher digit counts as zero.
pub open spec fn bit(x: int, s: int) -> int {
    if s == 0 {
        x % 2
    } else if s == 1 {
        x / 2 % 2
    } else if s == 2 {
        x / 4 % 2
    } else if s == 3 {
        x / 8 % 2
    } else if s == 4 {
        x / 16 % 2
    } else if s == 5 {
        x / 32 % 2
    } else if s == 6 {
        x / 64 % 2
    } else if s == 7 {
        x / 128 % 2
    } else {
        0
    }
}

/// The byte at position `i`, or zero where the sequence has no such position.
pub open spec fn byte_at(data: Seq<u8>, i: int) -> int {
    if 0 <= i < data.len() {
        data[i] as int
    } else {
        0
    }
}

/// Bit `p` of the bytes read as one string of bits: bit 0 is the highest bit of
/// the first byte. Past the end every bit is zero.
pub open spec fn data_bit(data: Seq<u8>, p: int) -> int {
    bit(byte_at(data, p / 8), 7 - p % 8)
}

/// The group of five bits that starts at bit `5 * j`, as a number below 32.
/// Opaque, so that no proof that speaks of it pays for its bits: reveal it to
/// compute with it.
#[verifier::opaque]
pub open spec fn quintet(data: Seq<u8>, j: int) -> int {
    16 * data_bit(data, 5 * j) + 8 * data_bit(data, 5 * j + 1) + 4 * data_bit(data, 5 * j + 2) + 2
        * data_bit(data, 5 * j + 3) + data_bit(data, 5 * j + 4)
}

/// Bit `q` of a sequence of 5-bit values read as one string of bits: bit 0 is
/// the highest of the five bits of the first value. Past the end every bit is
/// zero.
pub open spec fn value_bit(values: Seq<u8>, q: int) -> int {
    bit(byte_at(values, q / 5), 4 - q % 5)
}

/// The byte made of the eight bits that start at bit `8 * i` of a sequence of
/// 5-bit values. Opaque as [`quintet`] is.
#[verifier::opaque]
pub open spec fn octet(values: Seq<u8>, i: int) -> int {
    128 * value_bit(values, 8 * i) + 64 * value_bit(values, 8 * i + 1) + 32 * value_bit(
        values,
        8 * i + 2,
    ) + 16 * value_bit(values, 8 * i + 3) + 8 * value_bit(values, 8 * i + 4) + 4 * value_bit(
        values,
        8 * i + 5,
    ) + 2 * value_bit(values, 8 * i + 6) + value_bit(values, 8 * i + 7)
}

/// What the bit operations of [`split_chunk`] come to, digit by digit.
proof fn lemma_split_bits(b0: u8, b1: u8, b2: u8, b3: u8, b4: u8)
    by (bit_vector)
    ensures
        (b0 & 0b11111000u8) >> 3u8
            == 16 * bit(b0 as int, 7) + 8 * bit(b0 as int, 6) + 4 * bit(b0 as int, 5)
            + 2 * bit(b0 as int, 4) + bit(b0 as int, 3),
        ((b0 & 0b00000111u8) << 2u8) | ((b1 & 0b11000000u8) >> 6u8)
            == 16 * bit(b0 as int, 2) + 8 * bit(b0 as int, 1) + 4 * bit(b0 as int, 0)
            + 2 * bit(b1 as int, 7) + bit(b1 as int, 6),
        (b1 & 0b00111110u8) >> 1u8
            == 16 * bit(b1 as int, 5) + 8 * bit(b1 as int, 4) + 4 * bit(b1 as int, 3)
            + 2 * bit(b1 as int, 2) + bit(b1 as int, 1),
        ((b1 & 0b00000001u8) << 4u8) | ((b2 & 0b11110000u8) >> 4u8)
            == 16 * bit(b1 as int, 0) + 8 * bit(b2 as int, 7) + 4 * bit(b2 as int, 6)
            + 2 * bit(b2 as int, 5) + bit(b2 as int, 4),
        ((b2 & 0b00001111u8) << 1u8) | (b3 >> 7u8)
            == 16 * bit(b2 as int, 3) + 8 * bit(b2 as int, 2) + 4 * bit(b2 as int, 1)
            + 2 * bit(b2 as int, 0) + bit(b3 as int, 7),
        (b3 & 0b01111100u8) >> 2u8
            == 16 * bit(b3 as int, 6) + 8 * bit(b3 as int, 5) + 4 * bit(b3 as int, 4)
            + 2 * bit(b3 as int, 3) + bit(b3 as int, 2),
        ((b3 & 0b00000011u8) << 3u8) | ((b4 & 0b11100000u8) >> 5u8)
            == 16 * bit(b3 as int, 1) + 8 * bit(b3 as int, 0) + 4 * bit(b4 as int, 7)
            + 2 * bit(b4 as int, 6) + bit(b4 as int, 5),
        b4 & 0b00011111u8
            == 16 * bit(b4 as int, 4) + 8 * bit(b4 as int, 3) + 4 * bit(b4 as int, 2)
            + 2 * bit(b4 as int, 1) + bit(b4 as int, 0),
{
}

/// Cuts five bytes into their eight groups of five bits.
pub fn split_chunk(chunk: &[u8; 5]) -> (groups: [u8; 8])
    ensures
        forall|k: int| 0 <= k < 8 ==> groups@[k] as int == #[trigger] quintet(chunk@, k),
{
    let b0: u8 = chunk[0];
    let b1: u8 = chunk[1];
    let b2: u8 = chunk[2];
    let b3: u8 = chunk[3];
    let b4: u8 = chunk[4];
    let groups: [u8; 8] = [
        (b0 & 0b11111000u8) >> 3u8,
        ((b0 & 0b00000111u8) << 2u8) | ((b1 & 0b11000000u8) >> 6u8),
        (b1 & 0b00111110u8) >> 1u8,
        ((b1 & 0b00000001u8) << 4u8) | ((b2 & 0b11110000u8) >> 4u8),
        ((b2 & 0b00001111u8) << 1u8) | (b3 >> 7u8),
        (b3 & 0b01111100u8) >> 2u8,
        ((b3 & 0b00000011u8) << 3u8) | ((b4 & 0b11100000u8) >> 5u8),
        b4 & 0b00011111u8,
    ];
    proof {
        reveal(quintet);
        lemma_split_bits(b0, b1, b2, b3, b4);
        let c = chunk@;
        assert(c[0] == b0 && c[1] == b1 && c[2] == b2 && c[3] == b3 && c[4] == b4);
        assert(groups@[0] as int == quintet(c, 0));
        assert(groups@[1] as int == quintet(c, 1));
        assert(groups@[2] as int == quintet(c, 2));
        assert(groups@[3] as int == quintet(c, 3));
        assert(groups@[4] as int == quintet(c, 4));
        assert(groups@[5] as int == quintet(c, 5));
        assert(groups@[6] as int == quintet(c, 6));
        assert(groups@[7] as int == quintet(c, 7));
    }
    groups
}

/// What the bit operations of [`join_group`] come to, digit by digit.
proof fn lemma_join_bits(v0: u8, v1: u8, v2: u8, v3: u8, v4: u8, v5: u8, v6: u8, v7: u8)
    by (bit_vector)
    requires
        v0 < 32,
        v1 < 32,
        v2 < 32,
        v3 < 32,
        v4 < 32,
        v5 < 32,
        v6 < 32,
        v7 < 32,
    ensures
        (v0 << 3u8) | (v1 >> 2u8)
            == 128 * bit(v0 as int, 4) + 64 * bit(v0 as int, 3) + 32 * bit(v0 as int, 2)
            + 16 * bit(v0 as int, 1) + 8 * bit(v0 as int, 0) + 4 * bit(v1 as int, 4)
            + 2 * bit(v1 as int, 3) + bit(v1 as int, 2),
        (v1 << 6u8) | (v2 << 1u8) | (v3 >> 4u8)
            == 128 * bit(v1 as int, 1) + 64 * bit(v1 as int, 0) + 32 * bit(v2 as int, 4)
            + 16 * bit(v2 as int, 3) + 8 * bit(v2 as int, 2) + 4 * bit(v2 as int, 1)
            + 2 * bit(v2 as int, 0) + bit(v3 as int, 4),
        (v3 << 4u8) | (v4 >> 1u8)
            == 128 * bit(v3 as int, 3) + 64 * bit(v3 as int, 2) + 32 * bit(v3 as int, 1)
            + 16 * bit(v3 as int, 0) + 8 * bit(v4 as int, 4) + 4 * bit(v4 as int, 3)
            + 2 * bit(v4 as int, 2) + bit(v4 as int, 1),
        (v4 << 7u8) | (v5 << 2u8) | (v6 >> 3u8)
            == 128 * bit(v4 as int, 0) + 64 * bit(v5 as int, 4) + 32 * bit(v5 as int, 3)
            + 16 * bit(v5 as int, 2) + 8 * bit(v5 as int, 1) + 4 * bit(v5 as int, 0)
            + 2 * bit(v6 as int, 4) + bit(v6 as int, 3),
        (v6 << 5u8) | v7
            == 128 * bit(v6 as int, 2) + 64 * bit(v6 as int, 1) + 32 * bit(v6 as int, 0)
            + 16 * bit(v7 as int, 4) + 8 * bit(v7 as int, 3) + 4 * bit(v7 as int, 2)
            + 2 * bit(v7 as int, 1) + bit(v7 as int, 0),
{
}

/// Puts eight groups of five bits back together into five bytes.
pub fn join_group(values: &[u8; 8]) -> (bytes: [u8; 5])
    requires
        forall|k: int| 0 <= k < 8 ==> values@[k] < 32,
    ensures
        forall|m: int| 0 <= m < 5 ==> bytes@[m] as int == #[trigger] octet(values@, m),
{
    let v0: u8 = values[0];
    let v1: u8 = values[1];
    let v2: u8 = values[2];
    let v3: u8 = values[3];
    let v4: u8 = values[4];
    let v5: u8 = values[5];
    let v6: u8 = values[6];
    let v7: u8 = values[7];
    let bytes: [u8; 5] = [
        (v0 << 3u8) | (v1 >> 2u8),
        (v1 << 6u8) | (v2 << 1u8) | (v3 >> 4u8),
        (v3 << 4u8) | (v4 >> 1u8),
        (v4 << 7u8) | (v5 << 2u8) | (v6 >> 3u8),
        (v6 << 5u8) | v7,
    ];
    proof {
        reveal(octet);
        lemma_join_bits(v0, v1, v2, v3, v4, v5, v6, v7);
        let v = values@;
        assert(v[0] == v0 && v[1] == v1 && v[2] == v2 && v[3] == v3 && v[4] == v4 && v[5] == v5
            && v[6] == v6 && v[7] == v7);
        assert(bytes@[0] as int == octet(v, 0));
        assert(bytes@[1] as int == octet(v, 1));
        assert(bytes@[2] as int == octet(v, 2));
        assert(bytes@[3] as int == octet(v, 3));
        assert(bytes@[4] as int == octet(v, 4));
    }
    bytes
}

/// The five bytes of chunk `c` of the data, zero where the data has ended.
pub open spec fn chunk_of(data: Seq<u8>, c: int) -> Seq<u8> {
    Seq::new(5, |i: int| byte_at(data, 5 * c + i) as u8)
}

/// The eight values of group `g`, zero where the values have ended.
pub open spec fn group_of(values: Seq<u8>, g: int) -> Seq<u8> {
    Seq::new(8, |k: int| byte_at(values, 8 * g + k) as u8)
}

/// A binary digit is 0 or 1.
pub proof fn lemma_bit_range(x: int, s: int)
    ensures
        0 <= bit(x, s) <= 1,
{
}

/// A group of five bits is a number below 32.
pub proof fn lemma_quintet_range(data: Seq<u8>, j: int)
    ensures
        0 <= quintet(data, j) < 32,
{
    reveal(quintet);
    lemma_bit_range(byte_at(data, (5 * j) / 8), 7 - (5 * j) % 8);
    lemma_bit_range(byte_at(data, (5 * j + 1) / 8), 7 - (5 * j + 1) % 8);
    lemma_bit_range(byte_at(data, (5 * j + 2) / 8), 7 - (5 * j + 2) % 8);
    lemma_bit_range(byte_at(data, (5 * j + 3) / 8), 7 - (5 * j + 3) % 8);
    lemma_bit_range(byte_at(data, (5 * j + 4) / 8), 7 - (5 * j + 4) % 8);
}

/// A bit of the data is the same bit of the chunk that it lies in.
pub proof fn lemma_data_bit_in_chunk(data: Seq<u8>, c: int, p: int)
    requires
        0 <= p < 40,
    ensures
        data_bit(data, 40 * c + p) == data_bit(chunk_of(data, c), p),
{
    assert((40 * c + p) / 8 == 5 * c + p / 8);
    assert((40 * c + p) % 8 == p % 8);
    assert(chunk_of(data, c)[p / 8] == byte_at(data, 5 * c + p / 8) as u8);
}

/// A group of five bits of the data is the same group of the chunk that it lies in.
pub proof fn lemma_quintet_in_chunk(data: Seq<u8>, c: int, k: int)
    requires
        0 <= k < 8,
    ensures
        quintet(data, 8 * c + k) == quintet(chunk_of(data, c), k),
{
    reveal(quintet);
    lemma_data_bit_in_chunk(data, c, 5 * k);
    lemma_data_bit_in_chunk(data, c, 5 * k + 1);
    lemma_data_bit_in_chunk(data, c, 5 * k + 2);
    lemma_data_bit_in_chunk(data, c, 5 * k + 3);
    lemma_data_bit_in_chunk(data, c, 5 * k + 4);
}

/// A bit of the values is the same bit of the group that it lies in.
pub proof fn lemma_value_bit_in_group(values: Seq<u8>, g: int, q: int)
    requires
        0 <= q < 40,
    ensures
        value_bit(values, 40 * g + q) == value_bit(group_of(values, g), q),
{
    assert((40 * g + q) / 5 == 8 * g + q / 5);
    assert((40 * g + q) % 5 == q % 5);
    assert(group_of(values, g)[q / 5] == byte_at(values, 8 * g + q / 5) as u8);
}

/// A byte of the values is the same byte of the group that its bits lie in.
pub proof fn lemma_octet_in_group(values: Seq<u8>, g: int, m: int)
    requires
        0 <= m < 5,
    ensures
        octet(values, 5 * g + m) == octet(group_of(values, g), m),
{
    reveal(octet);
    lemma_value_bit_in_group(values, g, 8 * m);
    lemma_value_bit_in_group(values, g, 8 * m + 1);
    lemma_value_bit_in_group(values, g, 8 * m + 2);
    lemma_value_bit_in_group(values, g, 8 * m + 3);
    lemma_value_bit_in_group(values, g, 8 * m + 4);
    lemma_value_bit_in_group(values, g, 8 * m + 5);
    lemma_value_bit_in_group(values, g, 8 * m + 6);
    lemma_value_bit_in_group(values, g, 8 * m + 7);
}

/// The binary digits of a number that is put together from five digits.
proof fn lemma_digits_of_five(a: u8, b: u8, c: u8, d: u8, e: u8)
    by (bit_vector)
    requires
        a <= 1,
        b <= 1,
        c <= 1,
        d <= 1,
        e <= 1,
    ensures
        bit((16 * a + 8 * b + 4 * c + 2 * d + e) as int, 4) == a,
        bit((16 * a + 8 * b + 4 * c + 2 * d + e) as int, 3) == b,
        bit((16 * a + 8 * b + 4 * c + 2 * d + e) as int, 2) == c,
        bit((16 * a + 8 * b + 4 * c + 2 * d + e) as int, 1) == d,
        bit((16 * a + 8 * b + 4 * c + 2 * d + e) as int, 0) == e,
{
}

/// A byte is the sum of its eight binary digits, each at its place.
proof fn lemma_byte_from_bits(x: u8)
    by (bit_vector)
    ensures
        128 * bit(x as int, 7) + 64 * bit(x as int, 6) + 32 * bit(x as int, 5) + 16 * bit(x as int, 4)
            + 8 * bit(x as int, 3) + 4 * bit(x as int, 2) + 2 * bit(x as int, 1) + bit(x as int, 0)
            == x,
{
}

/// The binary digits of a group of five bits are the bits that it was made of.
pub proof fn lemma_quintet_bit(data: Seq<u8>, j: int, t: int)
    requires
        0 <= t < 5,
    ensures
        bit(quintet(data, j), 4 - t) == data_bit(data, 5 * j + t),
{
    reveal(quintet);
    let a = data_bit(data, 5 * j);
    let b = data_bit(data, 5 * j + 1);
    let c = data_bit(data, 5 * j + 2);
    let d = data_bit(data, 5 * j + 3);
    let e = data_bit(data, 5 * j + 4);
    lemma_bit_range(byte_at(data, (5 * j) / 8), 7 - (5 * j) % 8);
    lemma_bit_range(byte_at(data, (5 * j + 1) / 8), 7 - (5 * j + 1) % 8);
    lemma_bit_range(byte_at(data, (5 * j + 2) / 8), 7 - (5 * j + 2) % 8);
    lemma_bit_range(byte_at(data, (5 * j + 3) / 8), 7 - (5 * j + 3) % 8);
    lemma_bit_range(byte_at(data, (5 * j + 4) / 8), 7 - (5 * j + 4) % 8);
    lemma_digits_of_five(a as u8, b as u8, c as u8, d as u8, e as u8);
}

/// A bit of the groups of five that were cut from the data is that bit of the
/// data.
pub proof fn lemma_value_bit_of_quintets(data: Seq<u8>, values: Seq<u8>, q: int)
    requires
        0 <= q < 5 * values.len(),
        values[q / 5] == quintet(data, q / 5),
    ensures
        value_bit(values, q) == data_bit(data, q),
{
    lemma_quintet_bit(data, q / 5, q % 5);
}

/// A bit of a byte that is put together from the groups of five that were cut
/// from the data is that bit of the byte of the data.
proof fn lemma_octet_bit(data: Seq<u8>, values: Seq<u8>, count: int, i: int, t: int)
    requires
        0 <= i,
        0 <= t < 8,
        8 * i + 8 <= 5 * count,
        count <= values.len(),
        forall|j: int| 0 <= j < count ==> #[trigger] values[j] == quintet(data, j),
    ensures
        value_bit(values, 8 * i + t) == bit(byte_at(data, i), 7 - t),
{
    let q = 8 * i + t;
    assert(0 <= q / 5 < count);
    assert(values[q / 5] == quintet(data, q / 5));
    lemma_value_bit_of_quintets(data, values, q);
    assert(q / 8 == i);
    assert(q % 8 == t);
}

/// Cutting bytes into groups of five bits and putting the groups together again
/// gives each byte back, once all of its bits are among the groups.
pub proof fn lemma_octet_of_quintets(data: Seq<u8>, values: Seq<u8>, count: int, i: int)
    requires
        0 <= i,
        8 * i + 8 <= 5 * count,
        count <= values.len(),
        forall|j: int| 0 <= j < count ==> #[trigger] values[j] == quintet(data, j),
    ensures
        octet(values, i) == byte_at(data, i),
{
    reveal(octet);
    lemma_octet_bit(data, values, count, i, 0);
    lemma_octet_bit(data, values, count, i, 1);
    lemma_octet_bit(data, values, count, i, 2);
    lemma_octet_bit(data, values, count, i, 3);
    lemma_octet_bit(data, values, count, i, 4);
    lemma_octet_bit(data, values, count, i, 5);
    lemma_octet_bit(data, values, count, i, 6);
    lemma_octet_bit(data, values, count, i, 7);
    lemma_byte_from_bits(byte_at(data, i) as u8);
}

} // verus!

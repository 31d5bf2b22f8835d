//! What holds of encoding and decoding together, for every alphabet.
use crate::base32::packing::{lemma_octet_of_quintets, lemma_quintet_range, quintet};
use crate::base32::{
    bytes_of, decoded_len, encoded_len, is_symbol, symbol_count, text_of, trailing_fill, Alphabet,
    FIRST_SYMBOL, PAD,
};
use vstd::prelude::*;
use vstd::utf8::is_ascii_chars;

verus! {

/// A text that ends in `count` fillers, at most `limit` of them, and has
/// another byte or nothing before them, has `count` fillers at its end.
pub proof fn lemma_trailing_fill(text: Seq<u8>, limit: nat, count: nat)
    requires
        count <= limit,
        count <= text.len(),
        forall|i: int| text.len() - count <= i < text.len() ==> text[i] == PAD,
        count == limit || count == text.len() || text[text.len() - count - 1] != PAD,
    ensures
        trailing_fill(text, limit) == count,
    decreases limit,
{
    if count > 0 {
        lemma_trailing_fill(text.drop_last(), (limit - 1) as nat, (count - 1) as nat);
    }
}

/// Two texts with fillers at the same places have as many fillers at their
/// ends.
pub proof fn lemma_trailing_fill_same(a: Seq<u8>, b: Seq<u8>, limit: nat)
    requires
        a.len() == b.len(),
        forall|i: int| 0 <= i < a.len() ==> (a[i] == PAD <==> b[i] == PAD),
    ensures
        trailing_fill(a, limit) == trailing_fill(b, limit),
    decreases limit,
{
    if limit > 0 && a.len() > 0 && a.last() == PAD {
        lemma_trailing_fill_same(a.drop_last(), b.drop_last(), (limit - 1) as nat);
    }
}

/// The length of encoded text: without padding `len / 5 * 8` symbols and, for
/// the bytes left over, their bits divided by five and rounded up; with padding
/// a multiple of eight.
pub proof fn lemma_encoded_len(a: Alphabet, data: Seq<u8>)
    ensures
        a.encoding(data).len() == encoded_len(a.padding, data.len() as int),
        text_of(a.encoding(data)).len() == a.encoding(data).len(),
        !a.padding ==> a.encoding(data).len() == data.len() / 5 * 8 + ((data.len() % 5) * 8 + 4) / 5,
        a.padding ==> a.encoding(data).len() % 8 == 0,
        a.padding ==> a.encoding(data).len() == (data.len() + 4) / 5 * 8,
{
    let n = data.len() as int;
    assert(encoded_len(a.padding, n) >= 0);
    assert(symbol_count(n) == n / 5 * 8 + ((n % 5) * 8 + 4) / 5);
}

/// Decoding what was encoded gives the data back, under every valid alphabet
/// that is lossless. An alphabet that reads the symbol for one value as another
/// value, that writes the filler for a value, or that pads and does not read the
/// filler, cannot give all data back.
pub proof fn lemma_round_trip(a: Alphabet, data: Seq<u8>)
    requires
        a.valid(),
        a.lossless(),
    ensures
        a.decoding(a.encoding(data)) == Some(data),
        a.decoding_of_text(text_of(a.encoding(data))) == Some(data),
{
    let text = a.encoding(data);
    let n = data.len() as int;
    let count = symbol_count(n);
    let len = encoded_len(a.padding, n);
    assert(text.len() == len);
    assert(0 <= count <= len);
    assert(len - count <= 6);
    assert forall|j: int| 0 <= j < count implies a.value_of(#[trigger] text[j]) == Some(
        quintet(data, j) as u8,
    ) by {
        lemma_quintet_range(data, j);
    }
    assert(a.accepts(text));
    assert(count > 0 ==> text[count - 1] != PAD) by {
        if count > 0 {
            lemma_quintet_range(data, count - 1);
        }
    }
    lemma_trailing_fill(text, 6, (len - count) as nat);
    assert(decoded_len(text) == n);
    let values = a.values(text);
    let decoded = a.decoding(text).unwrap();
    assert forall|j: int| 0 <= j < count implies #[trigger] values[j] == quintet(data, j) by {
        lemma_quintet_range(data, j);
        assert(a.value_of(text[j]) == Some(quintet(data, j) as u8));
    }
    assert forall|i: int| 0 <= i < n implies #[trigger] decoded[i] == data[i] by {
        lemma_octet_of_quintets(data, values, count, i);
    }
    assert(decoded =~= data);

    let chars = text_of(text);
    assert(is_ascii_chars(chars));
    assert(bytes_of(chars) =~= text);
}

/// Texts of symbols that differ only in that a symbol of the one gives way to a
/// symbol that is read as the same value decode to the same bytes, or both to
/// nothing. Neither of the two symbols may be the filler: the fillers at the end
/// of a text tell how long the data is.
pub proof fn lemma_alias_decodes_alike(a: Alphabet, s1: u8, s2: u8, t1: Seq<u8>, t2: Seq<u8>)
    requires
        a.value_of(s1) == a.value_of(s2),
        s1 != PAD,
        s2 != PAD,
        t1.len() == t2.len(),
        forall|i: int| 0 <= i < t1.len() ==> t2[i] == t1[i] || (t1[i] == s1 && t2[i] == s2),
    ensures
        a.decoding(t1) == a.decoding(t2),
{
    assert forall|i: int| 0 <= i < t1.len() implies #[trigger] a.value_of(t1[i]) == a.value_of(
        t2[i],
    ) by {}
    assert(a.accepts(t1) <==> a.accepts(t2)) by {
        if a.accepts(t1) {
            assert forall|i: int| 0 <= i < t2.len() implies (#[trigger] a.value_of(t2[i])) is Some by {
                assert(a.value_of(t1[i]) is Some);
            }
        }
        if a.accepts(t2) {
            assert forall|i: int| 0 <= i < t1.len() implies (#[trigger] a.value_of(t1[i])) is Some by {
                assert(a.value_of(t2[i]) is Some);
            }
        }
    }
    assert(a.values(t1) =~= a.values(t2));
    lemma_trailing_fill_same(t1, t2, 6);
}

/// Texts that differ only in that a symbol of the one gives way to a symbol that
/// is read as the same value decode to the same bytes, or both to nothing.
/// Neither of the two symbols may be the filler.
pub proof fn lemma_alias_text_decodes_alike(
    a: Alphabet,
    s1: u8,
    s2: u8,
    t1: Seq<char>,
    t2: Seq<char>,
)
    requires
        a.value_of(s1) is Some,
        a.value_of(s1) == a.value_of(s2),
        s1 != PAD,
        s2 != PAD,
        t1.len() == t2.len(),
        forall|i: int|
            0 <= i < t1.len() ==> t2[i] == t1[i] || (t1[i] == s1 as char && t2[i] == s2 as char),
    ensures
        a.decoding_of_text(t1) == a.decoding_of_text(t2),
{
    assert(is_symbol(s1) && is_symbol(s2));
    assert(is_ascii_chars(t1) <==> is_ascii_chars(t2)) by {
        if is_ascii_chars(t1) {
            assert forall|i: int| 0 <= i < t2.len() implies '\0' <= #[trigger] t2[i] <= '\u{7f}' by {
                assert('\0' <= t1[i] <= '\u{7f}');
            }
        }
        if is_ascii_chars(t2) {
            assert forall|i: int| 0 <= i < t1.len() implies '\0' <= #[trigger] t1[i] <= '\u{7f}' by {
                assert('\0' <= t2[i] <= '\u{7f}');
            }
        }
    }
    if is_ascii_chars(t1) {
        lemma_alias_decodes_alike(a, s1, s2, bytes_of(t1), bytes_of(t2));
    }
}

/// No text with a character that is no symbol, or that the alphabet reads as no
/// value, decodes to anything.
pub proof fn lemma_decoding_rejects(a: Alphabet, text: Seq<char>, i: int)
    requires
        0 <= i < text.len(),
        !('0' <= text[i] <= 'z') || a.reverse[text[i] as u8 - FIRST_SYMBOL] is None,
    ensures
        a.decoding_of_text(text) is None,
{
    if is_ascii_chars(text) {
        assert('\0' <= text[i] <= '\u{7f}');
        assert(a.value_of(bytes_of(text)[i]) is None);
    }
}

} // verus!

//! Base32 alphabets and the codec over them.
//!
//! An alphabet pairs a table from each 5-bit value to the symbol that is
//! written for it with a table from each symbol to the value that it is read
//! as. [`Base32Variant`] is such an alphabet, checked when it is built;
//! [`Alphabet`] is what it stands for in contracts.
use crate::base32::builder::{Builder, Draft};
use crate::base32::laws::{lemma_encoded_len, lemma_round_trip};
use crate::base32::packing::{
    byte_at, chunk_of, group_of, join_group, lemma_octet_in_group, lemma_quintet_in_chunk,
    lemma_quintet_range, octet, quintet, split_chunk,
};
use crate::{Decoder, Encoder};
use vstd::prelude::*;
use vstd::string::is_ascii_spec_bytes;
use vstd::utf8::is_ascii_chars;

pub mod builder;
pub mod laws;
pub mod packing;
pub mod variants;

verus! {

/// The lowest byte that can be a symbol, `'0'`.
pub const FIRST_SYMBOL: u8 = 0x30;

/// The highest byte that can be a symbol, `'z'`.
pub const LAST_SYMBOL: u8 = 0x7A;

/// The filler that brings padded text to a whole number of groups, `'='`.
pub const PAD: u8 = 0x3D;

/// What [`Base32Variant::get_code_id`] answers for a byte that is no symbol.
pub const OUT_OF_RANGE: u8 = 255;

/// Whether a byte can be a symbol of an alphabet at all.
pub open spec fn is_symbol(ch: u8) -> bool {
    FIRST_SYMBOL <= ch <= LAST_SYMBOL
}

/// The place of a symbol in the table of symbols, counted from `'0'`; for any
/// other byte, [`OUT_OF_RANGE`].
pub open spec fn code_id(ch: u8) -> u8 {
    if is_symbol(ch) {
        (ch - FIRST_SYMBOL) as u8
    } else {
        OUT_OF_RANGE
    }
}

/// The characters that a sequence of ASCII bytes spells.
pub open spec fn text_of(symbols: Seq<u8>) -> Seq<char> {
    Seq::new(symbols.len(), |i: int| symbols[i] as char)
}

/// The bytes of a text, one for each character.
pub open spec fn bytes_of(text: Seq<char>) -> Seq<u8> {
    Seq::new(text.len(), |i: int| text[i] as u8)
}

/// How many symbols carry the bits of `n` bytes: `8 * n / 5`, rounded up.
pub open spec fn symbol_count(n: int) -> int {
    (8 * n + 4) / 5
}

/// How long the encoding of `n` bytes is: with padding a whole number of groups
/// of eight, without padding the symbols that carry data.
pub open spec fn encoded_len(padding: bool, n: int) -> int {
    if padding {
        (n + 4) / 5 * 8
    } else {
        symbol_count(n)
    }
}

/// How many fillers end the text, counting at most `limit` of them.
pub open spec fn trailing_fill(text: Seq<u8>, limit: nat) -> nat
    decreases limit,
{
    if limit > 0 && text.len() > 0 && text.last() == PAD {
        1 + trailing_fill(text.drop_last(), (limit - 1) as nat)
    } else {
        0
    }
}

/// How many bytes a text decodes to: five for every eight symbols, rounded down,
/// after up to six fillers at its end are left out.
pub open spec fn decoded_len(text: Seq<u8>) -> int {
    (text.len() - trailing_fill(text, 6)) * 5 / 8
}

/// An alphabet as a mathematical value.
pub struct Alphabet {
    /// The label, if one was given.
    pub name: Option<Seq<char>>,
    /// Whether encoded text is filled up with [`PAD`].
    pub padding: bool,
    /// For each 5-bit value the symbol that is written for it.
    pub forward: Seq<u8>,
    /// For each symbol, by its place in the table of symbols, the 5-bit value
    /// that it is read as, if any.
    pub reverse: Seq<Option<u8>>,
}

/// Whether one of the first `n` symbols of the table is read as the value `v`.
pub open spec fn reached_within(reverse: Seq<Option<u8>>, v: int, n: int) -> bool {
    exists|id: int| 0 <= id < n && #[trigger] reverse[id] == Some(v as u8)
}

/// Whether the two tables make an alphabet: every value has a symbol that is
/// written for it, every value is what some symbol is read as, and nothing is
/// read as a value of more than five bits. Whether the symbol that is written
/// for a value is read as that value is another matter: see
/// [`Alphabet::lossless`].
pub open spec fn valid_tables(forward: Seq<u8>, reverse: Seq<Option<u8>>) -> bool {
    &&& forward.len() == 32
    &&& reverse.len() == 75
    &&& forall|v: int| 0 <= v < 32 ==> is_symbol(#[trigger] forward[v])
    &&& forall|id: int|
        0 <= id < 75 && (#[trigger] reverse[id]) is Some ==> reverse[id].unwrap() < 32
    &&& forall|v: int| 0 <= v < 32 ==> #[trigger] reached_within(reverse, v, 75)
}

impl Alphabet {
    /// Whether the tables make an alphabet: see [`valid_tables`].
    pub open spec fn valid(self) -> bool {
        valid_tables(self.forward, self.reverse)
    }

    /// Whether nothing is lost between encoding and decoding: the symbol that is
    /// written for a value is read as that value, no such symbol is the filler,
    /// and if text is padded, the filler is read as some value.
    pub open spec fn lossless(self) -> bool {
        &&& forall|v: int|
            0 <= v < 32 ==> self.value_of(#[trigger] self.forward[v]) == Some(v as u8)
        &&& forall|v: int| 0 <= v < 32 ==> #[trigger] self.forward[v] != PAD
        &&& self.padding ==> self.value_of(PAD) is Some
    }

    /// The value that the byte `ch` is read as, if any.
    pub open spec fn value_of(self, ch: u8) -> Option<u8> {
        if is_symbol(ch) {
            self.reverse[ch - FIRST_SYMBOL]
        } else {
            None
        }
    }

    /// The label, or its placeholder where none was given.
    pub open spec fn label(self) -> Seq<char> {
        match self.name {
            Some(name) => name,
            None => "<Unnamed>"@,
        }
    }

    /// The symbols that the bytes are encoded as: one for each group of five
    /// bits, then fillers up to the encoded length.
    pub open spec fn encoding(self, data: Seq<u8>) -> Seq<u8> {
        Seq::new(
            encoded_len(self.padding, data.len() as int) as nat,
            |j: int|
                if j < symbol_count(data.len() as int) {
                    self.forward[quintet(data, j)]
                } else {
                    PAD
                },
        )
    }

    /// Whether every byte of the text is a symbol that is read as some value.
    pub open spec fn accepts(self, text: Seq<u8>) -> bool {
        forall|i: int| 0 <= i < text.len() ==> (#[trigger] self.value_of(text[i])) is Some
    }

    /// The values that the symbols of an accepted text are read as.
    pub open spec fn values(self, text: Seq<u8>) -> Seq<u8> {
        Seq::new(text.len(), |i: int| self.value_of(text[i]).unwrap())
    }

    /// The bytes that a text of symbols decodes to: the values of its symbols,
    /// five bits each, cut into bytes. No text with a byte that is read as no
    /// value decodes to anything.
    pub open spec fn decoding(self, text: Seq<u8>) -> Option<Seq<u8>> {
        if self.accepts(text) {
            Some(Seq::new(decoded_len(text) as nat, |i: int| octet(self.values(text), i) as u8))
        } else {
            None
        }
    }

    /// The bytes that a text of characters decodes to; a text with a character
    /// outside ASCII decodes to nothing.
    pub open spec fn decoding_of_text(self, text: Seq<char>) -> Option<Seq<u8>> {
        if is_ascii_chars(text) {
            self.decoding(bytes_of(text))
        } else {
            None
        }
    }
}

/// A Base32 alphabet: which symbol is written for each 5-bit value, which value
/// each symbol is read as, and whether encoded text is padded.
pub struct Base32Variant<'a> {
    name: Option<&'a str>,
    padding: bool,
    byte5_to_default_code: [u8; 32],
    code_id_to_byte5: [Option<u8>; 75],
}

impl<'a> View for Base32Variant<'a> {
    type V = Alphabet;

    closed spec fn view(&self) -> Alphabet {
        Alphabet {
            name: match self.name {
                Some(name) => Some(name@),
                None => None,
            },
            padding: self.padding,
            forward: self.byte5_to_default_code@,
            reverse: self.code_id_to_byte5@,
        }
    }
}

impl<'a> Base32Variant<'a> {
    /// What holds of every alphabet that exists: it is valid.
    #[verifier::type_invariant]
    pub open spec fn wf(self) -> bool {
        self@.valid()
    }

    /// A builder in which nothing is declared yet.
    pub fn builder() -> (res: Builder<'a>)
        ensures
            res@ == Draft::empty(),
    {
        Builder::new()
    }

    /// The alphabet of the given tables.
    pub(crate) fn from_tables(
        name: Option<&'a str>,
        padding: bool,
        forward: [u8; 32],
        reverse: [Option<u8>; 75],
    ) -> (res: Self)
        requires
            valid_tables(forward@, reverse@),
        ensures
            res@ == (Alphabet {
                name: match name {
                    Some(name) => Some(name@),
                    None => None,
                },
                padding,
                forward: forward@,
                reverse: reverse@,
            }),
    {
        Base32Variant {
            name,
            padding,
            byte5_to_default_code: forward,
            code_id_to_byte5: reverse,
        }
    }

    /// The label of the alphabet, `<Unnamed>` where it has none.
    pub fn name(&self) -> (res: &'a str)
        ensures
            res@ == self@.label(),
    {
        match self.name {
            Some(name) => name,
            None => "<Unnamed>",
        }
    }

    /// The place of a symbol in the table of symbols: `0..75` for the bytes from
    /// `'0'` to `'z'`, and [`OUT_OF_RANGE`] for every other byte.
    pub fn get_code_id(ch: u8) -> (id: u8)
        ensures
            id == code_id(ch),
    {
        if FIRST_SYMBOL <= ch && ch <= LAST_SYMBOL {
            ch - FIRST_SYMBOL
        } else {
            OUT_OF_RANGE
        }
    }

    /// The symbol that is written for a 5-bit value.
    pub fn code(&self, byte5: u8) -> (symbol: u8)
        requires
            byte5 < 32,
        ensures
            symbol == self@.forward[byte5 as int],
            is_symbol(symbol),
    {
        proof {
            use_type_invariant(self);
        }
        self.byte5_to_default_code[byte5 as usize]
    }

    /// Whether encoded text is padded.
    pub fn padding(&self) -> (res: bool)
        ensures
            res == self@.padding,
    {
        self.padding
    }

    /// The value that a byte of encoded text is read as, if any.
    fn value(&self, ch: u8) -> (v: Option<u8>)
        ensures
            v == self@.value_of(ch),
            v is Some ==> v.unwrap() < 32,
    {
        proof {
            use_type_invariant(self);
        }
        let id = Self::get_code_id(ch);
        if id == OUT_OF_RANGE {
            None
        } else {
            self.code_id_to_byte5[id as usize]
        }
    }

    /// The symbols that the data is encoded as.
    fn encode_symbols(&self, data: &[u8]) -> (encoded: Vec<u8>)
        ensures
            encoded@ == self@.encoding(data@),
            forall|j: int| 0 <= j < encoded@.len() ==> is_symbol(#[trigger] encoded@[j]),
    {
        proof {
            use_type_invariant(self);
        }
        let n = data.len();
        let chunks: usize = if n % 5 == 0 {
            n / 5
        } else {
            n / 5 + 1
        };
        let mut encoded: Vec<u8> = Vec::new();
        let mut c: usize = 0;
        while c < chunks
            invariant
                n == data@.len(),
                chunks == (n + 4) / 5,
                c <= chunks,
                self@.valid(),
                encoded@.len() == 8 * c,
                forall|j: int|
                    0 <= j < 8 * c ==> #[trigger] encoded@[j] == self@.forward[quintet(data@, j)],
            decreases chunks - c,
        {
            let buf = chunk_at(data, c);
            let groups = split_chunk(&buf);
            let mut k: usize = 0;
            while k < 8
                invariant
                    k <= 8,
                    c < chunks,
                    self@.valid(),
                    buf@ == chunk_of(data@, c as int),
                    forall|k: int| 0 <= k < 8 ==> groups@[k] as int == #[trigger] quintet(buf@, k),
                    encoded@.len() == 8 * c + k,
                    forall|j: int|
                        0 <= j < 8 * c + k ==> #[trigger] encoded@[j] == self@.forward[quintet(
                            data@,
                            j,
                        )],
                decreases 8 - k,
            {
                proof {
                    lemma_quintet_range(buf@, k as int);
                    lemma_quintet_in_chunk(data@, c as int, k as int);
                }
                encoded.push(self.code(groups[k]));
                k += 1;
            }
            c += 1;
        }
        if n % 5 != 0 {
            let len = encoded.len();
            let num_extra = 8 - (n % 5 * 8 + 4) / 5;
            if self.padding {
                let mut i: usize = 1;
                while i < num_extra + 1
                    invariant
                        1 <= i <= num_extra + 1,
                        num_extra < 8,
                        len == encoded@.len(),
                        len >= 8,
                        forall|j: int|
                            0 <= j < len - num_extra ==> #[trigger] encoded@[j]
                                == self@.forward[quintet(data@, j)],
                        forall|j: int| len - i < j < len ==> #[trigger] encoded@[j] == PAD,
                    decreases num_extra + 1 - i,
                {
                    encoded[len - i] = PAD;
                    i += 1;
                }
            } else {
                encoded.truncate(len - num_extra);
            }
        }
        proof {
            assert forall|j: int| 0 <= j < encoded@.len() implies is_symbol(
                #[trigger] encoded@[j],
            ) by {
                if j < symbol_count(n as int) {
                    lemma_quintet_range(data@, j);
                }
            }
            assert(encoded@ =~= self@.encoding(data@));
        }
        encoded
    }

    /// The values of group `g` of the text, zero where the text has ended, if
    /// every symbol of the group is read as some value.
    fn read_group(&self, text: &[u8], g: usize) -> (res: Option<[u8; 8]>)
        requires
            8 * g < text@.len(),
        ensures
            res is Some <==> forall|i: int|
                8 * g <= i < text@.len() && i < 8 * g + 8 ==> (#[trigger] self@.value_of(
                    text@[i],
                )) is Some,
            res is Some ==> res.unwrap()@ == group_of(self@.values(text@), g as int),
            res is Some ==> forall|k: int| 0 <= k < 8 ==> #[trigger] res.unwrap()@[k] < 32,
    {
        let len = text.len();
        let base = 8 * g;
        let avail = len - base;
        let mut code_ids = [0u8; 8];
        let mut k: usize = 0;
        while k < 8 && k < avail
            invariant
                len == text@.len(),
                base == 8 * g,
                base < len,
                avail == len - base,
                k <= 8,
                k <= avail,
                forall|i: int|
                    base <= i < base + k ==> (#[trigger] self@.value_of(text@[i])) is Some,
                forall|i: int|
                    0 <= i < k ==> #[trigger] code_ids@[i] == self@.value_of(
                        text@[base + i],
                    ).unwrap(),
                forall|i: int| 0 <= i < 8 ==> #[trigger] code_ids@[i] < 32,
                forall|i: int| k <= i < 8 ==> #[trigger] code_ids@[i] == 0,
            decreases 8 - k,
        {
            match self.value(text[base + k]) {
                None => {
                    return None;
                },
                Some(byte5) => {
                    code_ids[k] = byte5;
                },
            }
            k += 1;
        }
        proof {
            assert(code_ids@ =~= group_of(self@.values(text@), g as int));
        }
        Some(code_ids)
    }

    /// The bytes that a text of symbols decodes to, if it decodes to any.
    fn decode_symbols(&self, text: &[u8]) -> (res: Option<Vec<u8>>)
        ensures
            res is Some <==> self@.decoding(text@) is Some,
            res is Some ==> Some(res.unwrap()@) == self@.decoding(text@),
    {
        let len = text.len();
        let unpadded = unpadded_len(text);
        let output_length = unpadded / 8 * 5 + unpadded % 8 * 5 / 8;
        let groups: usize = if len % 8 == 0 {
            len / 8
        } else {
            len / 8 + 1
        };
        let mut data: Vec<u8> = Vec::new();
        let mut g: usize = 0;
        while g < groups
            invariant
                len == text@.len(),
                groups == (len + 7) / 8,
                g <= groups,
                data@.len() == 5 * g,
                forall|i: int|
                    0 <= i < len && i < 8 * g ==> (#[trigger] self@.value_of(text@[i])) is Some,
                forall|m: int|
                    0 <= m < 5 * g ==> #[trigger] data@[m] as int == octet(self@.values(text@), m),
            decreases groups - g,
        {
            let code_ids = match self.read_group(text, g) {
                None => {
                    return None;
                },
                Some(code_ids) => code_ids,
            };
            let bytes = join_group(&code_ids);
            proof {
                lemma_octet_in_group(self@.values(text@), g as int, 0);
                lemma_octet_in_group(self@.values(text@), g as int, 1);
                lemma_octet_in_group(self@.values(text@), g as int, 2);
                lemma_octet_in_group(self@.values(text@), g as int, 3);
                lemma_octet_in_group(self@.values(text@), g as int, 4);
            }
            data.push(bytes[0]);
            data.push(bytes[1]);
            data.push(bytes[2]);
            data.push(bytes[3]);
            data.push(bytes[4]);
            g += 1;
        }
        data.truncate(output_length);
        proof {
            assert(self@.accepts(text@));
            assert(output_length == decoded_len(text@));
            assert(data@ =~= self@.decoding(text@).unwrap());
        }
        Some(data)
    }
}

impl Encoder for Base32Variant<'_> {
    /// Encodes the data: a symbol for each group of five bits, the first symbol
    /// for the five highest bits of the first byte, and with padding fillers up
    /// to a whole number of groups of eight symbols.
    fn encode(&self, data: &[u8]) -> (text: String)
        ensures
            text@ == text_of(self@.encoding(data@)),
            !self@.padding ==> text@.len() == data@.len() / 5 * 8 + ((data@.len() % 5) * 8 + 4) / 5,
            self@.padding ==> text@.len() % 8 == 0,
            self@.lossless() ==> self@.decoding_of_text(text@) == Some(data@),
    {
        proof {
            use_type_invariant(self);
            lemma_encoded_len(self@, data@);
            if self@.lossless() {
                lemma_round_trip(self@, data@);
            }
        }
        let encoded = self.encode_symbols(data);
        symbols_to_string(&encoded)
    }
}

impl Decoder for Base32Variant<'_> {
    /// Decodes the text. There is a result exactly when every character of the
    /// text is a symbol that the alphabet reads as some value.
    fn decode(&self, encoded: &str) -> (res: Option<Vec<u8>>)
        ensures
            res is Some <==> self@.decoding_of_text(encoded@) is Some,
            res is Some ==> Some(res.unwrap()@) == self@.decoding_of_text(encoded@),
            res is Some <==> is_ascii_chars(encoded@) && self@.accepts(bytes_of(encoded@)),
    {
        if !encoded.is_ascii() {
            return None;
        }
        let text = encoded.as_bytes();
        proof {
            is_ascii_spec_bytes(encoded);
            assert(text@ =~= bytes_of(encoded@));
        }
        self.decode_symbols(text)
    }
}

/// The five bytes of chunk `c` of the data, zero where the data has ended.
fn chunk_at(data: &[u8], c: usize) -> (buf: [u8; 5])
    requires
        5 * c < data@.len(),
    ensures
        buf@ == chunk_of(data@, c as int),
{
    let n = data.len();
    let base = 5 * c;
    let avail = n - base;
    let mut buf = [0u8; 5];
    let mut i: usize = 0;
    while i < 5 && i < avail
        invariant
            n == data@.len(),
            base == 5 * c,
            base < n,
            avail == n - base,
            i <= 5,
            i <= avail,
            forall|k: int| 0 <= k < i ==> #[trigger] buf@[k] == data@[base + k],
            forall|k: int| i <= k < 5 ==> #[trigger] buf@[k] == 0,
        decreases 5 - i,
    {
        buf[i] = data[base + i];
        i += 1;
    }
    proof {
        assert(buf@ =~= chunk_of(data@, c as int));
    }
    buf
}

/// The length of the text without the fillers at its end, of which at most six
/// are left out.
fn unpadded_len(text: &[u8]) -> (n: usize)
    ensures
        n == text@.len() - trailing_fill(text@, 6),
{
    let mut n = text.len();
    let mut dropped: usize = 0;
    proof {
        assert(text@.take(n as int) =~= text@);
    }
    while dropped < 6 && n > 0 && text[n - 1] == PAD
        invariant
            n + dropped == text@.len(),
            dropped <= 6,
            trailing_fill(text@, 6) == dropped + trailing_fill(
                text@.take(n as int),
                (6 - dropped) as nat,
            ),
        decreases n,
    {
        proof {
            assert(text@.take(n as int).drop_last() =~= text@.take(n - 1));
        }
        n -= 1;
        dropped += 1;
    }
    n
}

/// Appends one symbol to a text.
fn push_symbol(text: &mut String, symbol: u8)
    requires
        is_symbol(symbol),
    ensures
        final(text)@ == old(text)@.push(symbol as char),
{
    let table = "0123456789:;<=>?@ABCDEFGHIJKLMNOPQRSTUVWXYZ[\\]^_`abcdefghijklmnopqrstuvwxyz";
    let id: usize = (symbol - FIRST_SYMBOL) as usize;
    proof {
        reveal_strlit("0123456789:;<=>?@ABCDEFGHIJKLMNOPQRSTUVWXYZ[\\]^_`abcdefghijklmnopqrstuvwxyz");
        assert(table@.len() == 75);
        assert forall|i: int| 0 <= i < 75 implies #[trigger] table@[i] == ((FIRST_SYMBOL + i) as u8) as char by {
            let id = i;
            assert(
                id == 0 || id == 1 || id == 2 || id == 3 || id == 4 || id == 5 || id ==
                6 || id == 7 || id == 8 || id == 9 || id == 10 || id == 11 || id == 12
                || id == 13 || id == 14 || id == 15 || id == 16 || id == 17 || id == 18
                || id == 19 || id == 20 || id == 21 || id == 22 || id == 23 || id == 24
                || id == 25 || id == 26 || id == 27 || id == 28 || id == 29 || id == 30
                || id == 31 || id == 32 || id == 33 || id == 34 || id == 35 || id == 36
                || id == 37 || id == 38 || id == 39 || id == 40 || id == 41 || id == 42
                || id == 43 || id == 44 || id == 45 || id == 46 || id == 47 || id == 48
                || id == 49 || id == 50 || id == 51 || id == 52 || id == 53 || id == 54
                || id == 55 || id == 56 || id == 57 || id == 58 || id == 59 || id == 60
                || id == 61 || id == 62 || id == 63 || id == 64 || id == 65 || id == 66
                || id == 67 || id == 68 || id == 69 || id == 70 || id == 71 || id == 72
                || id == 73 || id == 74
            );
        }
    }
    let piece = table.substring_ascii(id, id + 1);
    text.append(piece);
    proof {
        assert(piece@ =~= seq![symbol as char]);
        assert(old(text)@ + piece@ =~= old(text)@.push(symbol as char));
    }
}

/// The text that a sequence of symbols spells.
fn symbols_to_string(symbols: &Vec<u8>) -> (text: String)
    requires
        forall|i: int| 0 <= i < symbols@.len() ==> is_symbol(#[trigger] symbols@[i]),
    ensures
        text@ == text_of(symbols@),
{
    let mut text = String::new();
    let mut i: usize = 0;
    while i < symbols.len()
        invariant
            i <= symbols@.len(),
            forall|i: int| 0 <= i < symbols@.len() ==> is_symbol(#[trigger] symbols@[i]),
            text@ == text_of(symbols@.take(i as int)),
        decreases symbols@.len() - i,
    {
        push_symbol(&mut text, symbols[i]);
        proof {
            assert(text@ =~= text_of(symbols@.take(i + 1)));
        }
        i += 1;
    }
    proof {
        assert(symbols@.take(i as int) =~= symbols@);
    }
    text
}

} // verus!

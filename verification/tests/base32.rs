use base_n::base32::variants::{
    crockford, rfc4648, rfc4648_hex, rfc4648_hex_lower, rfc4648_hex_lower_pad, rfc4648_hex_pad,
    rfc4648_higher, rfc4648_higher_pad, rfc4648_lower, rfc4648_lower_pad, rfc4648_pad, yidu,
    yidu_pad, z,
};
use base_n::base32::Base32Variant;
use base_n::{Decoder, Encoder};
use rand::rngs::StdRng;
use rand::{RngCore, SeedableRng};

fn variants() -> Vec<Base32Variant<'static>> {
    vec![
        crockford(),
        rfc4648(),
        rfc4648_pad(),
        rfc4648_higher(),
        rfc4648_higher_pad(),
        rfc4648_lower(),
        rfc4648_lower_pad(),
        rfc4648_hex(),
        rfc4648_hex_pad(),
        rfc4648_hex_lower(),
        rfc4648_hex_lower_pad(),
        z(),
        yidu(),
        yidu_pad(),
    ]
}

#[test]
fn test_rfc4648_lower_pad() {
    let variant = rfc4648_lower_pad();
    let data = vec![0b00010011; 2];
    /*
     *      byte | 00010011 00010011
     *           | 0^^^^1^^ ^^2^^^^3 ^^^^4^^^ ^5^^^^6^ ^^^7^^^^
     *     byte5 | 00010, 01100, 01001, 10000, 00000, 00000, 00000, 00000
     *     byte5 | 2, 12, 9, 16, 0, 0, 0, 0
     *      code | 99, 109, 106, 113, 61, 61, 61, 61
     *      code | c, m, j, q, =, =, =, =
     *   encoded | cmjq====
     */
    let encoded = variant.encode(&data);
    println!("encoded: '{}'", encoded);
    println!("encoded: {:?}", encoded.as_bytes());
    assert_eq!(encoded, "cmjq====");
    /*
     *   encoded | cmjq====
     *     code  | 99, 109, 106, 113, 61, 61, 61, 61
     *   code_id | 51, 61, 58, 65, 13, 13, 13, 13
     *    bytes5 | 2, 12, 9, 16, 0, 0, 0, 0
     */
    let decoded = variant.decode(&encoded).expect("Failed to decode");
    assert_eq!(data, decoded);
}

#[test]
fn test_all() {
    const SIZE: usize = 1024;
    const ROUNDS: u64 = 64;
    const SEED: u64 = 7355608;

    let mut rng = StdRng::seed_from_u64(SEED);
    let mut data = vec![0u8; SIZE];

    for variant in variants().iter() {
        for _ in 0..ROUNDS {
            rng.fill_bytes(&mut data);
            let encoded = variant.encode(&data);
            let decoded = variant.decode(&encoded).expect("Failed to decode");
            assert_eq!(data, decoded);
        }
    }
}

#[test]
fn round_trip_of_every_length_under_every_variant() {
    let data: Vec<u8> = (0..64u32).map(|i| (i * 37 + 11) as u8).collect();
    for variant in variants().iter() {
        for len in 0..=data.len() {
            let encoded = variant.encode(&data[..len]);
            assert_eq!(variant.decode(&encoded), Some(data[..len].to_vec()));
        }
    }
}

#[test]
fn encoded_length_follows_the_formula() {
    let data = vec![0xA5u8; 40];
    for variant in variants().iter() {
        for len in 0..=data.len() {
            let encoded = variant.encode(&data[..len]);
            if variant.padding() {
                assert_eq!(encoded.len() % 8, 0);
                assert_eq!(encoded.len(), (len + 4) / 5 * 8);
            } else {
                assert_eq!(encoded.len(), len / 5 * 8 + (len % 5 * 8 + 4) / 5);
                assert!(!encoded.contains('='));
            }
        }
    }
}

#[test]
fn encoded_lengths_of_a_partial_chunk() {
    let plain = rfc4648();
    let padded = rfc4648_pad();
    let expected = [0usize, 2, 4, 5, 7, 8, 10];
    for len in 0..expected.len() {
        let data = vec![0xFFu8; len];
        assert_eq!(plain.encode(&data).len(), expected[len]);
        assert_eq!(padded.encode(&data).len(), (len + 4) / 5 * 8);
    }
}

#[test]
fn rfc4648_vectors() {
    let cases: [(&str, &str, &str); 7] = [
        ("", "", ""),
        ("f", "MY======", "MY"),
        ("fo", "MZXQ====", "MZXQ"),
        ("foo", "MZXW6===", "MZXW6"),
        ("foob", "MZXW6YQ=", "MZXW6YQ"),
        ("fooba", "MZXW6YTB", "MZXW6YTB"),
        ("foobar", "MZXW6YTBOI======", "MZXW6YTBOI"),
    ];
    for (plain, padded, unpadded) in cases {
        assert_eq!(rfc4648_pad().encode(plain.as_bytes()), padded);
        assert_eq!(rfc4648().encode(plain.as_bytes()), unpadded);
        assert_eq!(rfc4648_higher_pad().encode(plain.as_bytes()), padded);
        assert_eq!(rfc4648_higher().encode(plain.as_bytes()), unpadded);
        assert_eq!(rfc4648_lower_pad().encode(plain.as_bytes()), padded.to_lowercase());
        assert_eq!(rfc4648_lower().encode(plain.as_bytes()), unpadded.to_lowercase());
        assert_eq!(rfc4648_pad().decode(padded), Some(plain.as_bytes().to_vec()));
        assert_eq!(rfc4648().decode(unpadded), Some(plain.as_bytes().to_vec()));
        assert_eq!(rfc4648_pad().decode(unpadded), Some(plain.as_bytes().to_vec()));
    }
}

#[test]
fn rfc4648_hex_vectors() {
    let cases: [(&str, &str); 7] = [
        ("", ""),
        ("f", "CO======"),
        ("fo", "CPNG===="),
        ("foo", "CPNMU==="),
        ("foob", "CPNMUOG="),
        ("fooba", "CPNMUOJ1"),
        ("foobar", "CPNMUOJ1E8======"),
    ];
    for (plain, padded) in cases {
        assert_eq!(rfc4648_hex_pad().encode(plain.as_bytes()), padded);
        assert_eq!(rfc4648_hex().encode(plain.as_bytes()), padded.trim_end_matches('='));
        assert_eq!(rfc4648_hex_lower_pad().encode(plain.as_bytes()), padded.to_lowercase());
        assert_eq!(
            rfc4648_hex_lower().encode(plain.as_bytes()),
            padded.trim_end_matches('=').to_lowercase()
        );
        assert_eq!(rfc4648_hex_pad().decode(padded), Some(plain.as_bytes().to_vec()));
        assert_eq!(
            rfc4648_hex_lower_pad().decode(&padded.to_lowercase()),
            Some(plain.as_bytes().to_vec())
        );
    }
}

#[test]
fn other_variants_vectors() {
    assert_eq!(crockford().encode(b"foobar"), "CSQPYRK1E8");
    assert_eq!(crockford().encode(b"foob"), "CSQPYRG");
    assert_eq!(crockford().encode(&[0xFF; 5]), "ZZZZZZZZ");
    assert_eq!(
        crockford().encode(&[0x00, 0x44, 0x32, 0x14, 0xC7, 0x42, 0x54, 0xB6, 0x35, 0xCF]),
        "0123456789ABCDEF"
    );
    assert_eq!(z().encode(b"foobar"), "c3zs6aubqe");
    assert_eq!(z().encode(b"fo"), "c3zo");
    assert_eq!(yidu().encode(b"foobar"), "CTQPYSK1F8");
    assert_eq!(yidu_pad().encode(b"foobar"), "CTQPYSK1F8======");
    assert_eq!(yidu_pad().encode(b"foob"), "CTQPYSH=");
    assert_eq!(z().decode("c3zs6aubqe"), Some(b"foobar".to_vec()));
    assert_eq!(yidu_pad().decode("CTQPYSK1F8======"), Some(b"foobar".to_vec()));
}

#[test]
fn names_and_padding_of_the_variants() {
    let expected: [(&str, bool); 14] = [
        ("Crockford", false),
        ("RFC4648", false),
        ("RFC4648 Padded", true),
        ("RFC4648 higher", false),
        ("RFC4648 higher Padded", true),
        ("RFC4648 lower", false),
        ("RFC4648 lower padded", true),
        ("RFC4648 base32hex", false),
        ("RFC4648 base32hex padded", true),
        ("RFC4648 base32hex lower", false),
        ("RFC4648 base32hex lower padded", true),
        ("z-based-32", false),
        ("YiDu", false),
        ("YiDu padded", true),
    ];
    let all = variants();
    assert_eq!(all.len(), expected.len());
    for (variant, (name, padding)) in all.iter().zip(expected) {
        assert_eq!(variant.name(), name);
        assert_eq!(variant.padding(), padding);
    }
}

#[test]
fn empty_input_and_empty_text() {
    for variant in variants().iter() {
        assert_eq!(variant.encode(&[]), "");
        assert_eq!(variant.decode(""), Some(vec![]));
    }
}

#[test]
fn either_case_decodes_alike() {
    let data = b"The quick brown fox".to_vec();
    let upper = rfc4648().encode(&data);
    let lower = upper.to_lowercase();
    assert_ne!(upper, lower);
    assert_eq!(rfc4648().decode(&upper), Some(data.clone()));
    assert_eq!(rfc4648().decode(&lower), Some(data.clone()));
    let mixed: String = upper
        .chars()
        .enumerate()
        .map(|(i, c)| if i % 2 == 0 { c.to_ascii_lowercase() } else { c })
        .collect();
    assert_eq!(rfc4648().decode(&mixed), Some(data.clone()));
    assert_eq!(rfc4648_pad().decode(&rfc4648_pad().encode(&data).to_lowercase()), Some(data));
}

#[test]
fn crockford_aliases_decode_alike() {
    let canonical = "0123456789ABCDEF";
    let data = crockford().decode(canonical).unwrap();
    assert_eq!(data, vec![0x00, 0x44, 0x32, 0x14, 0xC7, 0x42, 0x54, 0xB6, 0x35, 0xCF]);
    for zero in ["O", "o"] {
        let text = canonical.replace('0', zero);
        assert_eq!(crockford().decode(&text), Some(data.clone()));
    }
    for one in ["I", "i", "L", "l"] {
        let text = canonical.replace('1', one);
        assert_eq!(crockford().decode(&text), Some(data.clone()));
    }
    assert_eq!(crockford().decode("oL23456789abcdef"), Some(data.clone()));
    assert_eq!(yidu().decode("o0"), yidu().decode("00"));
    assert_eq!(yidu().decode("O0"), Some(vec![0]));
}

#[test]
fn higher_and_lower_read_one_case_only() {
    assert_eq!(rfc4648_higher().decode("MZXW6"), Some(b"foo".to_vec()));
    assert_eq!(rfc4648_higher().decode("mzxw6"), None);
    assert_eq!(rfc4648_lower().decode("mzxw6"), Some(b"foo".to_vec()));
    assert_eq!(rfc4648_lower().decode("MZXW6"), None);
    assert_eq!(rfc4648_hex().decode("cpnmu"), None);
    assert_eq!(rfc4648_hex_lower().decode("CPNMU"), None);
}

#[test]
fn decode_rejects_bytes_that_are_no_symbols() {
    for variant in variants().iter() {
        assert_eq!(variant.decode(" "), None);
        assert_eq!(variant.decode("!"), None);
        assert_eq!(variant.decode("/"), None);
        assert_eq!(variant.decode("{"), None);
        assert_eq!(variant.decode("~"), None);
        assert_eq!(variant.decode("\n"), None);
        assert_eq!(variant.decode("\u{0}"), None);
        assert_eq!(variant.decode("\u{7f}"), None);
    }
    assert_eq!(rfc4648().decode("MZXW6 YQ"), None);
    assert_eq!(rfc4648().decode("MZ-XW"), None);
    assert_eq!(rfc4648().decode("MZXW6YQ\n"), None);
}

#[test]
fn decode_rejects_text_outside_ascii() {
    for variant in variants().iter() {
        assert_eq!(variant.decode("é"), None);
        assert_eq!(variant.decode("MZXW6é"), None);
        assert_eq!(variant.decode("\u{141}"), None); // its low byte is 'A'
        assert_eq!(variant.decode("日本"), None);
    }
}

#[test]
fn decode_rejects_symbols_that_the_alphabet_does_not_read() {
    assert_eq!(rfc4648().decode("MZXW1"), None);
    assert_eq!(rfc4648().decode("0"), None);
    assert_eq!(rfc4648().decode("8"), None);
    assert_eq!(rfc4648().decode("MZ@W"), None);
    assert_eq!(rfc4648().decode("MZ[W"), None);
    assert_eq!(rfc4648_hex().decode("W"), None);
    assert_eq!(rfc4648_hex().decode("CPNMUZ"), None);
    assert_eq!(crockford().decode("U"), None);
    assert_eq!(crockford().decode("u"), None);
    assert_eq!(yidu().decode("E"), None);
    assert_eq!(yidu().decode("R"), None);
    assert_eq!(yidu().decode("L"), None);
    assert_eq!(z().decode("l"), None);
    assert_eq!(z().decode("v"), None);
    assert_eq!(z().decode("0"), None);
    assert_eq!(z().decode("2"), None);
    assert_eq!(z().decode("Y"), None);
}

#[test]
fn the_filler_is_read_only_where_text_is_padded() {
    assert_eq!(rfc4648_pad().decode("MY======"), Some(b"f".to_vec()));
    assert_eq!(rfc4648().decode("MY======"), None);
    assert_eq!(rfc4648().decode("MY="), None);
    assert_eq!(rfc4648_higher().decode("MZXW6YQ="), None);
    assert_eq!(crockford().decode("CR======"), None);
    assert_eq!(z().decode("ca======"), None);
    assert_eq!(yidu().decode("CS======"), None);
    assert_eq!(yidu_pad().decode("CS======"), Some(b"f".to_vec()));
}

#[test]
fn fillers_at_the_end_of_padded_text() {
    let variant = rfc4648_pad();
    // at most six fillers are left out at the end; the others count as symbols
    assert_eq!(variant.decode("========"), Some(vec![0]));
    assert_eq!(variant.decode("======="), Some(vec![]));
    assert_eq!(variant.decode("="), Some(vec![]));
    assert_eq!(variant.decode("MY"), Some(b"f".to_vec()));
    assert_eq!(variant.decode("MY="), Some(b"f".to_vec()));
    assert_eq!(variant.decode("MY=="), Some(b"f".to_vec()));
    // a filler inside the text is read as the value zero
    assert_eq!(variant.decode("M=XW6YTB"), variant.decode("MAXW6YTB"));
    assert_eq!(variant.decode("MZXW6YTBOI======"), Some(b"foobar".to_vec()));
}

#[test]
fn text_of_any_length_decodes_without_padding() {
    let variant = rfc4648();
    assert_eq!(variant.decode("M"), Some(vec![]));
    assert_eq!(variant.decode("MY"), Some(vec![0x66]));
    assert_eq!(variant.decode("MZX"), Some(vec![0x66]));
    assert_eq!(variant.decode("MZXQ"), Some(vec![0x66, 0x6F]));
    assert_eq!(variant.decode("MZXW6"), Some(vec![0x66, 0x6F, 0x6F]));
    assert_eq!(variant.decode("MZXW6Y"), Some(vec![0x66, 0x6F, 0x6F]));
    assert_eq!(variant.decode("MZXW6YQ"), Some(vec![0x66, 0x6F, 0x6F, 0x62]));
    assert_eq!(variant.decode("MZXW6YTB"), Some(vec![0x66, 0x6F, 0x6F, 0x62, 0x61]));
    assert_eq!(variant.decode("MZXW6YTBO"), Some(vec![0x66, 0x6F, 0x6F, 0x62, 0x61]));
    assert_eq!(variant.decode("MZXW6YTBOI"), Some(b"foobar".to_vec()));
}

#[test]
fn all_bytes_encode_and_decode() {
    let data: Vec<u8> = (0..=255u8).collect();
    let encoded = rfc4648().encode(&data);
    assert_eq!(&encoded[..40], "AAAQEAYEAUDAOCAJBIFQYDIOB4IBCEQTCQKRMFYY");
    assert_eq!(encoded.len(), 410);
    assert_eq!(rfc4648().decode(&encoded), Some(data));
}

#[test]
fn every_variant_writes_its_own_symbols() {
    // the 32 values in their order, five bits each
    let data: [u8; 20] = [
        0x00, 0x44, 0x32, 0x14, 0xC7, 0x42, 0x54, 0xB6, 0x35, 0xCF,
        0x84, 0x65, 0x3A, 0x56, 0xD7, 0xC6, 0x75, 0xBE, 0x77, 0xDF,
    ];
    let expected: [&str; 14] = [
        "0123456789ABCDEFGHJKMNPQRSTVWXYZ",
        "ABCDEFGHIJKLMNOPQRSTUVWXYZ234567",
        "ABCDEFGHIJKLMNOPQRSTUVWXYZ234567",
        "ABCDEFGHIJKLMNOPQRSTUVWXYZ234567",
        "ABCDEFGHIJKLMNOPQRSTUVWXYZ234567",
        "abcdefghijklmnopqrstuvwxyz234567",
        "abcdefghijklmnopqrstuvwxyz234567",
        "0123456789ABCDEFGHIJKLMNOPQRSTUV",
        "0123456789ABCDEFGHIJKLMNOPQRSTUV",
        "0123456789abcdefghijklmnopqrstuv",
        "0123456789abcdefghijklmnopqrstuv",
        "ybndrfg8ejkmcpqxot1uwisza345h769",
        "0123456789ABCDFGHIJKMNPQSTUVWXYZ",
        "0123456789ABCDFGHIJKMNPQSTUVWXYZ",
    ];
    for (variant, symbols) in variants().iter().zip(expected) {
        assert_eq!(variant.encode(&data), symbols);
        assert_eq!(variant.decode(symbols), Some(data.to_vec()));
        for (value, symbol) in symbols.bytes().enumerate() {
            assert_eq!(variant.code(value as u8), symbol);
        }
    }
    // the symbols that are read without being written
    assert_eq!(crockford().decode("0123456789abcdefghjkmnpqrstvwxyz"), Some(data.to_vec()));
    assert_eq!(rfc4648().decode("abcdefghijklmnopqrstuvwxyz234567"), Some(data.to_vec()));
    assert_eq!(rfc4648_pad().decode("abcdefghijklmnopqrstuvwxyz234567"), Some(data.to_vec()));
    assert_eq!(yidu().decode("0123456789abcdfghijkmnpqstuvwxyz"), Some(data.to_vec()));
    assert_eq!(yidu_pad().decode("0123456789abcdfghijkmnpqstuvwxyz"), Some(data.to_vec()));
}

use base_n::base32::packing::{join_group, split_chunk};
use base_n::base32::{Base32Variant, FIRST_SYMBOL, LAST_SYMBOL, OUT_OF_RANGE, PAD};
use base_n::{Decoder, Encoder};

#[test]
fn nothing_declared_does_not_build() {
    assert!(Base32Variant::builder().try_build().is_none());
    assert!(Base32Variant::builder().name("empty").padding(true).try_build().is_none());
}

#[test]
fn a_value_without_a_symbol_does_not_build() {
    // the last slot holds no symbol: nothing is written for the value 31
    let builder = Base32Variant::builder().mapping(b"ABCDEFGHIJKLMNOPQRSTUVWXYZ23456 ");
    assert!(builder.try_build().is_none());
    // it is read, but still not written
    let builder = Base32Variant::builder()
        .mapping(b"ABCDEFGHIJKLMNOPQRSTUVWXYZ23456 ")
        .map_chars(b"7", 31);
    assert!(builder.try_build().is_none());
    // aliases alone give no value a symbol
    let mut builder = Base32Variant::builder();
    for (value, symbol) in b"ABCDEFGHIJKLMNOPQRSTUVWXYZ234567".iter().enumerate() {
        builder = builder.map_chars(&[*symbol], value as u8);
    }
    assert!(builder.try_build().is_none());
}

#[test]
fn a_value_that_nothing_is_read_as_does_not_build() {
    // 'A' is written for 0 and for 1, and is read as 1 only
    let builder = Base32Variant::builder().mapping(b"AACDEFGHIJKLMNOPQRSTUVWXYZ234567");
    assert!(builder.try_build().is_none());
    // 'A' is declared away from the value 0
    let builder = Base32Variant::builder()
        .mapping(b"ABCDEFGHIJKLMNOPQRSTUVWXYZ234567")
        .map_chars(b"A", 1);
    assert!(builder.try_build().is_none());
    // a code of 32 or more is no value: 'H' is read as nothing
    let builder = Base32Variant::builder()
        .mapping(b"ABCDEFGHIJKLMNOPQRSTUVWXYZ234567")
        .map_chars(b"H", 32);
    assert!(builder.try_build().is_none());
    let builder = Base32Variant::builder()
        .mapping(b"ABCDEFGHIJKLMNOPQRSTUVWXYZ234567")
        .map_chars(b"H", 255);
    assert!(builder.try_build().is_none());
}

#[test]
fn a_complete_builder_builds() {
    let variant = Base32Variant::builder()
        .mapping(b"ABCDEFGHIJKLMNOPQRSTUVWXYZ234567")
        .try_build();
    assert!(variant.is_some());
    assert_eq!(variant.unwrap().encode(b"foobar"), "MZXW6YTBOI");
    let variant = Base32Variant::builder()
        .mapping(b"ABCDEFGHIJKLMNOP                ")
        .mapping(b"                QRSTUVWXYZ234567")
        .build();
    assert_eq!(variant.encode(b"foobar"), "MZXW6YTBOI");
}

#[test]
fn name_defaults_to_a_placeholder() {
    let unnamed = Base32Variant::builder().mapping(b"ABCDEFGHIJKLMNOPQRSTUVWXYZ234567").build();
    assert_eq!(unnamed.name(), "<Unnamed>");
    let named = Base32Variant::builder()
        .name("first")
        .mapping(b"ABCDEFGHIJKLMNOPQRSTUVWXYZ234567")
        .name("second")
        .build();
    assert_eq!(named.name(), "second");
}

#[test]
fn padding_is_off_unless_switched_on() {
    let builder = || Base32Variant::builder().mapping(b"ABCDEFGHIJKLMNOPQRSTUVWXYZ234567");
    assert!(!builder().build().padding());
    assert!(builder().padding(true).build().padding());
    assert!(!builder().padding(false).build().padding());
    let off_again = builder().padding(true).padding(false).build();
    assert!(!off_again.padding());
    assert_eq!(off_again.encode(b"f"), "MY");
    // the filler stays declared as the value 0
    assert_eq!(off_again.decode("MY======"), Some(b"f".to_vec()));
    assert_eq!(builder().build().decode("MY======"), None);
}

#[test]
fn the_first_symbol_declared_for_a_value_is_written() {
    let variant = Base32Variant::builder()
        .mapping(b"abcdefghijklmnopqrstuvwxyz234567")
        .mapping(b"ABCDEFGHIJKLMNOPQRSTUVWXYZ      ")
        .build();
    assert_eq!(variant.encode(b"foobar"), "mzxw6ytboi");
    assert_eq!(variant.decode("MZXW6YTBOI"), Some(b"foobar".to_vec()));
    assert_eq!(variant.decode("mzxw6ytboi"), Some(b"foobar".to_vec()));
    assert_eq!(variant.decode("MzXw6yTbOi"), Some(b"foobar".to_vec()));
}

#[test]
fn a_slot_that_holds_no_symbol_declares_nothing() {
    let variant = Base32Variant::builder()
        .mapping(b"~~~~~~~~~~~~~~~~~~~~~~~~~~~~~~~~")
        .mapping(b"////////////////////////////////")
        .mapping(b"{{{{{{{{{{{{{{{{{{{{{{{{{{{{{{{{")
        .mapping(b"ABCDEFGHIJKLMNOPQRSTUVWXYZ234567")
        .build();
    assert_eq!(variant.encode(b"foobar"), "MZXW6YTBOI");
    assert_eq!(variant.decode("~"), None);
    assert_eq!(variant.decode("/"), None);
    assert_eq!(variant.decode("{"), None);
}

#[test]
fn the_last_declaration_of_a_symbol_is_read() {
    // 'A' stands in the slots 0 and 1 of the second call: it is read as 1
    let variant = Base32Variant::builder()
        .mapping(b"0123456789abcdefghijklmnopqrstuv")
        .mapping(b"AA                              ")
        .build();
    assert_eq!(variant.decode("AAAAAAAA"), variant.decode("11111111"));
    assert_eq!(variant.decode("11111111"), Some(vec![0x08, 0x42, 0x10, 0x84, 0x21]));
    // aliases that are declared later win over slots that were declared before
    let variant = Base32Variant::builder()
        .mapping(b"0123456789abcdefghijklmnopqrstuv")
        .mapping(b"O                               ")
        .map_chars(b"O", 31)
        .build();
    assert_eq!(variant.decode("OOOOOOOO"), Some(vec![0xFF; 5]));
}

#[test]
fn aliases_are_read_and_never_written() {
    let variant = Base32Variant::builder()
        .map_chars(b"Oo", 0)
        .mapping(b"0123456789ABCDEFGHJKMNPQRSTVWXYZ")
        .map_chars(b"IiLl !", 1)
        .build();
    assert_eq!(variant.encode(&[0, 0, 0, 0, 0]), "00000000");
    assert_eq!(variant.encode(&[0x08, 0x42, 0x10, 0x84, 0x21]), "11111111");
    assert_eq!(variant.decode("OoOoOoOo"), Some(vec![0; 5]));
    assert_eq!(variant.decode("IiLl1IiL"), Some(vec![0x08, 0x42, 0x10, 0x84, 0x21]));
    assert_eq!(variant.decode("!"), None);
    assert_eq!(variant.decode(" "), None);
}

#[test]
fn an_alias_declared_as_no_value_is_read_as_nothing() {
    let variant = Base32Variant::builder()
        .mapping(b"ABCDEFGHIJKLMNOPQRSTUVWXYZ234567")
        .mapping(b"abcdefghijklmnopqrstuvwxyz      ")
        .map_chars(b"a", 32)
        .build();
    assert_eq!(variant.decode("A"), Some(vec![]));
    assert_eq!(variant.decode("b"), Some(vec![]));
    assert_eq!(variant.decode("a"), None);
}

#[test]
fn padding_declares_the_filler_as_zero() {
    let variant = Base32Variant::builder()
        .mapping(b"ABCDEFGHIJKLMNOPQRSTUVWXYZ234567")
        .padding(true)
        .build();
    assert_eq!(variant.decode("=Y"), variant.decode("AY"));
    assert_eq!(variant.decode("=Y"), Some(vec![0x06]));
    assert_eq!(variant.encode(b"f"), "MY======");
}

#[test]
fn code_ids_of_bytes() {
    assert_eq!(FIRST_SYMBOL, b'0');
    assert_eq!(LAST_SYMBOL, b'z');
    assert_eq!(PAD, b'=');
    assert_eq!(OUT_OF_RANGE, 255);
    assert_eq!(Base32Variant::get_code_id(b'0'), 0);
    assert_eq!(Base32Variant::get_code_id(b'='), 13);
    assert_eq!(Base32Variant::get_code_id(b'A'), 17);
    assert_eq!(Base32Variant::get_code_id(b'z'), 74);
    assert_eq!(Base32Variant::get_code_id(b'/'), 255);
    assert_eq!(Base32Variant::get_code_id(b'{'), 255);
    assert_eq!(Base32Variant::get_code_id(0), 255);
    assert_eq!(Base32Variant::get_code_id(255), 255);
    for ch in 0..=255u8 {
        let id = Base32Variant::get_code_id(ch);
        if (b'0'..=b'z').contains(&ch) {
            assert_eq!(id, ch - b'0');
            assert!(id < 75);
        } else {
            assert_eq!(id, 255);
        }
    }
}

#[test]
fn code_of_each_value() {
    let variant = Base32Variant::builder()
        .mapping(b"ABCDEFGHIJKLMNOPQRSTUVWXYZ234567")
        .mapping(b"abcdefghijklmnopqrstuvwxyz      ")
        .build();
    for (value, symbol) in b"ABCDEFGHIJKLMNOPQRSTUVWXYZ234567".iter().enumerate() {
        assert_eq!(variant.code(value as u8), *symbol);
    }
}

#[test]
fn five_bytes_make_eight_groups() {
    assert_eq!(split_chunk(&[0, 0, 0, 0, 0]), [0; 8]);
    assert_eq!(split_chunk(&[0xFF; 5]), [31; 8]);
    assert_eq!(split_chunk(&[0x13, 0x13, 0, 0, 0]), [2, 12, 9, 16, 0, 0, 0, 0]);
    assert_eq!(split_chunk(&[0x08, 0x42, 0x10, 0x84, 0x21]), [1; 8]);
    assert_eq!(split_chunk(&[0x00, 0x44, 0x32, 0x14, 0xC7]), [0, 1, 2, 3, 4, 5, 6, 7]);
    assert_eq!(split_chunk(&[0x80, 0, 0, 0, 0]), [16, 0, 0, 0, 0, 0, 0, 0]);
    assert_eq!(split_chunk(&[0, 0, 0, 0, 1]), [0, 0, 0, 0, 0, 0, 0, 1]);
}

#[test]
fn eight_groups_make_five_bytes() {
    assert_eq!(join_group(&[0; 8]), [0; 5]);
    assert_eq!(join_group(&[31; 8]), [0xFF; 5]);
    assert_eq!(join_group(&[2, 12, 9, 16, 0, 0, 0, 0]), [0x13, 0x13, 0, 0, 0]);
    assert_eq!(join_group(&[1; 8]), [0x08, 0x42, 0x10, 0x84, 0x21]);
    assert_eq!(join_group(&[0, 1, 2, 3, 4, 5, 6, 7]), [0x00, 0x44, 0x32, 0x14, 0xC7]);
    for seed in 0..=255u8 {
        let chunk = [seed, seed.wrapping_mul(3), !seed, seed ^ 0x5A, seed.wrapping_add(77)];
        assert_eq!(join_group(&split_chunk(&chunk)), chunk);
    }
}

#[test]
fn a_complete_alphabet_need_not_give_all_data_back() {
    // 'A' is written for the value 0 and read as 1; 'a' is read as 0
    let variant = Base32Variant::builder()
        .mapping(b"ABCDEFGHIJKLMNOPQRSTUVWXYZ234567")
        .map_chars(b"A", 1)
        .map_chars(b"a", 0)
        .build();
    assert_eq!(variant.encode(&[0x00]), "AA");
    assert_eq!(variant.decode("AA"), Some(vec![0x08]));
    assert_eq!(variant.decode("aa"), Some(vec![0x00]));
    // the filler is written for the value 31, and left out at the end of a text
    let variant = Base32Variant::builder()
        .mapping(b"ABCDEFGHIJKLMNOPQRSTUVWXYZ23456=")
        .build();
    assert_eq!(variant.encode(&[0xFF; 5]), "========");
    assert_eq!(variant.decode("========"), Some(vec![0xFF]));
}

#[test]
fn the_filler_as_an_alias_changes_the_length() {
    let variant = Base32Variant::builder()
        .mapping(b"ABCDEFGHIJKLMNOPQRSTUVWXYZ234567")
        .padding(true)
        .build();
    // 'A' and the filler are both read as the value 0
    assert_eq!(variant.decode("AAAAAAAA"), Some(vec![0; 5]));
    assert_eq!(variant.decode("AAAAAAA="), Some(vec![0; 4]));
    assert_eq!(variant.decode("=AAAAAAA"), Some(vec![0; 5]));
}

//! The alphabets in common use. Each is declared through a builder, and each is
//! proved complete and lossless where it is declared: a table with a symbol
//! missing or written twice would not verify.
use crate::base32::builder::{
    lemma_aliases_faithful, lemma_empty_faithful, lemma_faithful_is_complete,
    lemma_mapping_faithful, lemma_name_faithful, lemma_padding_faithful, Draft,
};
use crate::base32::Base32Variant;
use vstd::prelude::*;

verus! {

/// The 32 slots `0123456789ABCDEFGHJKMNPQRSTVWXYZ`.
pub const CROCKFORD_UPPER: [u8; 32] = [
    0x30, 0x31, 0x32, 0x33, 0x34, 0x35, 0x36, 0x37,
    0x38, 0x39, 0x41, 0x42, 0x43, 0x44, 0x45, 0x46,
    0x47, 0x48, 0x4A, 0x4B, 0x4D, 0x4E, 0x50, 0x51,
    0x52, 0x53, 0x54, 0x56, 0x57, 0x58, 0x59, 0x5A,
];

/// Ten blanks, then the 22 slots `abcdefghjkmnpqrstvwxyz`.
pub const CROCKFORD_LOWER: [u8; 32] = [
    0x20, 0x20, 0x20, 0x20, 0x20, 0x20, 0x20, 0x20,
    0x20, 0x20, 0x61, 0x62, 0x63, 0x64, 0x65, 0x66,
    0x67, 0x68, 0x6A, 0x6B, 0x6D, 0x6E, 0x70, 0x71,
    0x72, 0x73, 0x74, 0x76, 0x77, 0x78, 0x79, 0x7A,
];

/// The 32 slots `ABCDEFGHIJKLMNOPQRSTUVWXYZ234567`.
pub const RFC4648_UPPER: [u8; 32] = [
    0x41, 0x42, 0x43, 0x44, 0x45, 0x46, 0x47, 0x48,
    0x49, 0x4A, 0x4B, 0x4C, 0x4D, 0x4E, 0x4F, 0x50,
    0x51, 0x52, 0x53, 0x54, 0x55, 0x56, 0x57, 0x58,
    0x59, 0x5A, 0x32, 0x33, 0x34, 0x35, 0x36, 0x37,
];

/// The 26 slots `abcdefghijklmnopqrstuvwxyz`, then six blanks.
pub const RFC4648_LOWER_LETTERS: [u8; 32] = [
    0x61, 0x62, 0x63, 0x64, 0x65, 0x66, 0x67, 0x68,
    0x69, 0x6A, 0x6B, 0x6C, 0x6D, 0x6E, 0x6F, 0x70,
    0x71, 0x72, 0x73, 0x74, 0x75, 0x76, 0x77, 0x78,
    0x79, 0x7A, 0x20, 0x20, 0x20, 0x20, 0x20, 0x20,
];

/// The 32 slots `abcdefghijklmnopqrstuvwxyz234567`.
pub const RFC4648_LOWER_SLOTS: [u8; 32] = [
    0x61, 0x62, 0x63, 0x64, 0x65, 0x66, 0x67, 0x68,
    0x69, 0x6A, 0x6B, 0x6C, 0x6D, 0x6E, 0x6F, 0x70,
    0x71, 0x72, 0x73, 0x74, 0x75, 0x76, 0x77, 0x78,
    0x79, 0x7A, 0x32, 0x33, 0x34, 0x35, 0x36, 0x37,
];

/// The 32 slots `0123456789ABCDEFGHIJKLMNOPQRSTUV`.
pub const RFC4648_HEX_UPPER: [u8; 32] = [
    0x30, 0x31, 0x32, 0x33, 0x34, 0x35, 0x36, 0x37,
    0x38, 0x39, 0x41, 0x42, 0x43, 0x44, 0x45, 0x46,
    0x47, 0x48, 0x49, 0x4A, 0x4B, 0x4C, 0x4D, 0x4E,
    0x4F, 0x50, 0x51, 0x52, 0x53, 0x54, 0x55, 0x56,
];

/// The 32 slots `0123456789abcdefghijklmnopqrstuv`.
pub const RFC4648_HEX_LOWER_SLOTS: [u8; 32] = [
    0x30, 0x31, 0x32, 0x33, 0x34, 0x35, 0x36, 0x37,
    0x38, 0x39, 0x61, 0x62, 0x63, 0x64, 0x65, 0x66,
    0x67, 0x68, 0x69, 0x6A, 0x6B, 0x6C, 0x6D, 0x6E,
    0x6F, 0x70, 0x71, 0x72, 0x73, 0x74, 0x75, 0x76,
];

/// The 32 slots `ybndrfg8ejkmcpqxot1uwisza345h769`.
pub const Z_SLOTS: [u8; 32] = [
    0x79, 0x62, 0x6E, 0x64, 0x72, 0x66, 0x67, 0x38,
    0x65, 0x6A, 0x6B, 0x6D, 0x63, 0x70, 0x71, 0x78,
    0x6F, 0x74, 0x31, 0x75, 0x77, 0x69, 0x73, 0x7A,
    0x61, 0x33, 0x34, 0x35, 0x68, 0x37, 0x36, 0x39,
];

/// The 32 slots `0123456789ABCDFGHIJKMNPQSTUVWXYZ`.
pub const YIDU_UPPER: [u8; 32] = [
    0x30, 0x31, 0x32, 0x33, 0x34, 0x35, 0x36, 0x37,
    0x38, 0x39, 0x41, 0x42, 0x43, 0x44, 0x46, 0x47,
    0x48, 0x49, 0x4A, 0x4B, 0x4D, 0x4E, 0x50, 0x51,
    0x53, 0x54, 0x55, 0x56, 0x57, 0x58, 0x59, 0x5A,
];

/// Ten blanks, then the 22 slots `abcdfghijkmnpqstuvwxyz`.
pub const YIDU_LOWER: [u8; 32] = [
    0x20, 0x20, 0x20, 0x20, 0x20, 0x20, 0x20, 0x20,
    0x20, 0x20, 0x61, 0x62, 0x63, 0x64, 0x66, 0x67,
    0x68, 0x69, 0x6A, 0x6B, 0x6D, 0x6E, 0x70, 0x71,
    0x73, 0x74, 0x75, 0x76, 0x77, 0x78, 0x79, 0x7A,
];

/// The letters `Oo`, which are easily taken for the digit zero.
pub const LIKE_ZERO: [u8; 2] = [0x4F, 0x6F];

/// The letters `IiLl`, which are easily taken for the digit one.
pub const LIKE_ONE: [u8; 4] = [0x49, 0x69, 0x4C, 0x6C];

/// Crockford's Base32: digits and upper case are written; lower case is read
/// too, `O` as zero, and `I` and `L` as one.
pub fn crockford() -> (res: Base32Variant<'static>)
    ensures
        res@ == Draft::empty()
            .with_name("Crockford"@)
            .with_mapping(CROCKFORD_UPPER@)
            .with_mapping(CROCKFORD_LOWER@)
            .with_aliases(LIKE_ZERO@, 0)
            .with_aliases(LIKE_ONE@, 1)
            .frozen(),
        res@.forward =~= CROCKFORD_UPPER@,
        res@.padding == false,
        res@.valid(),
        res@.lossless(),
{
    let b0 = Base32Variant::builder();
    let ghost d0 = b0@;
    let b1 = b0.name("Crockford");
    let ghost d1 = b1@;
    let b2 = b1.mapping(&CROCKFORD_UPPER);
    let ghost d2 = b2@;
    let b3 = b2.mapping(&CROCKFORD_LOWER);
    let ghost d3 = b3@;
    let b4 = b3.map_chars(&LIKE_ZERO, 0);
    let ghost d4 = b4@;
    let b5 = b4.map_chars(&LIKE_ONE, 1);
    proof {
        lemma_empty_faithful();
        lemma_name_faithful(d0, "Crockford"@);
        lemma_mapping_faithful(d1, CROCKFORD_UPPER@);
        lemma_mapping_faithful(d2, CROCKFORD_LOWER@);
        lemma_aliases_faithful(d3, LIKE_ZERO@, 0);
        lemma_aliases_faithful(d4, LIKE_ONE@, 1);
        lemma_faithful_is_complete(b5@);
    }
    b5.build()
}

/// RFC 4648 Base32: upper case is written, either case is read.
pub fn rfc4648() -> (res: Base32Variant<'static>)
    ensures
        res@ == Draft::empty()
            .with_mapping(RFC4648_UPPER@)
            .with_mapping(RFC4648_LOWER_LETTERS@)
            .with_name("RFC4648"@)
            .frozen(),
        res@.forward =~= RFC4648_UPPER@,
        res@.padding == false,
        res@.valid(),
        res@.lossless(),
{
    let b0 = Base32Variant::builder();
    let ghost d0 = b0@;
    let b1 = b0.mapping(&RFC4648_UPPER);
    let ghost d1 = b1@;
    let b2 = b1.mapping(&RFC4648_LOWER_LETTERS);
    let ghost d2 = b2@;
    let b3 = b2.name("RFC4648");
    proof {
        lemma_empty_faithful();
        lemma_mapping_faithful(d0, RFC4648_UPPER@);
        lemma_mapping_faithful(d1, RFC4648_LOWER_LETTERS@);
        lemma_name_faithful(d2, "RFC4648"@);
        lemma_faithful_is_complete(b3@);
    }
    b3.build()
}

/// The alphabet of [`rfc4648`], with padding.
pub fn rfc4648_pad() -> (res: Base32Variant<'static>)
    ensures
        res@ == Draft::empty()
            .with_mapping(RFC4648_UPPER@)
            .with_mapping(RFC4648_LOWER_LETTERS@)
            .with_name("RFC4648 Padded"@)
            .with_padding(true)
            .frozen(),
        res@.forward =~= RFC4648_UPPER@,
        res@.padding == true,
        res@.valid(),
        res@.lossless(),
{
    let b0 = Base32Variant::builder();
    let ghost d0 = b0@;
    let b1 = b0.mapping(&RFC4648_UPPER);
    let ghost d1 = b1@;
    let b2 = b1.mapping(&RFC4648_LOWER_LETTERS);
    let ghost d2 = b2@;
    let b3 = b2.name("RFC4648 Padded");
    let ghost d3 = b3@;
    let b4 = b3.padding(true);
    proof {
        lemma_empty_faithful();
        lemma_mapping_faithful(d0, RFC4648_UPPER@);
        lemma_mapping_faithful(d1, RFC4648_LOWER_LETTERS@);
        lemma_name_faithful(d2, "RFC4648 Padded"@);
        lemma_padding_faithful(d3, true);
        lemma_faithful_is_complete(b4@);
    }
    b4.build()
}

/// RFC 4648 Base32 in upper case only.
pub fn rfc4648_higher() -> (res: Base32Variant<'static>)
    ensures
        res@ == Draft::empty().with_mapping(RFC4648_UPPER@).with_name("RFC4648 higher"@).frozen(),
        res@.forward =~= RFC4648_UPPER@,
        res@.padding == false,
        res@.valid(),
        res@.lossless(),
{
    let b0 = Base32Variant::builder();
    let ghost d0 = b0@;
    let b1 = b0.mapping(&RFC4648_UPPER);
    let ghost d1 = b1@;
    let b2 = b1.name("RFC4648 higher");
    proof {
        lemma_empty_faithful();
        lemma_mapping_faithful(d0, RFC4648_UPPER@);
        lemma_name_faithful(d1, "RFC4648 higher"@);
        lemma_faithful_is_complete(b2@);
    }
    b2.build()
}

/// The alphabet of [`rfc4648_higher`], with padding.
pub fn rfc4648_higher_pad() -> (res: Base32Variant<'static>)
    ensures
        res@ == Draft::empty()
            .with_mapping(RFC4648_UPPER@)
            .with_name("RFC4648 higher Padded"@)
            .with_padding(true)
            .frozen(),
        res@.forward =~= RFC4648_UPPER@,
        res@.padding == true,
        res@.valid(),
        res@.lossless(),
{
    let b0 = Base32Variant::builder();
    let ghost d0 = b0@;
    let b1 = b0.mapping(&RFC4648_UPPER);
    let ghost d1 = b1@;
    let b2 = b1.name("RFC4648 higher Padded");
    let ghost d2 = b2@;
    let b3 = b2.padding(true);
    proof {
        lemma_empty_faithful();
        lemma_mapping_faithful(d0, RFC4648_UPPER@);
        lemma_name_faithful(d1, "RFC4648 higher Padded"@);
        lemma_padding_faithful(d2, true);
        lemma_faithful_is_complete(b3@);
    }
    b3.build()
}

/// RFC 4648 Base32 in lower case only.
pub fn rfc4648_lower() -> (res: Base32Variant<'static>)
    ensures
        res@ == Draft::empty()
            .with_mapping(RFC4648_LOWER_SLOTS@)
            .with_name("RFC4648 lower"@)
            .frozen(),
        res@.forward =~= RFC4648_LOWER_SLOTS@,
        res@.padding == false,
        res@.valid(),
        res@.lossless(),
{
    let b0 = Base32Variant::builder();
    let ghost d0 = b0@;
    let b1 = b0.mapping(&RFC4648_LOWER_SLOTS);
    let ghost d1 = b1@;
    let b2 = b1.name("RFC4648 lower");
    proof {
        lemma_empty_faithful();
        lemma_mapping_faithful(d0, RFC4648_LOWER_SLOTS@);
        lemma_name_faithful(d1, "RFC4648 lower"@);
        lemma_faithful_is_complete(b2@);
    }
    b2.build()
}

/// The alphabet of [`rfc4648_lower`], with padding.
pub fn rfc4648_lower_pad() -> (res: Base32Variant<'static>)
    ensures
        res@ == Draft::empty()
            .with_mapping(RFC4648_LOWER_SLOTS@)
            .with_name("RFC4648 lower padded"@)
            .with_padding(true)
            .frozen(),
        res@.forward =~= RFC4648_LOWER_SLOTS@,
        res@.padding == true,
        res@.valid(),
        res@.lossless(),
{
    let b0 = Base32Variant::builder();
    let ghost d0 = b0@;
    let b1 = b0.mapping(&RFC4648_LOWER_SLOTS);
    let ghost d1 = b1@;
    let b2 = b1.name("RFC4648 lower padded");
    let ghost d2 = b2@;
    let b3 = b2.padding(true);
    proof {
        lemma_empty_faithful();
        lemma_mapping_faithful(d0, RFC4648_LOWER_SLOTS@);
        lemma_name_faithful(d1, "RFC4648 lower padded"@);
        lemma_padding_faithful(d2, true);
        lemma_faithful_is_complete(b3@);
    }
    b3.build()
}

/// RFC 4648 Base32 with the extended hex alphabet, in upper case.
pub fn rfc4648_hex() -> (res: Base32Variant<'static>)
    ensures
        res@ == Draft::empty()
            .with_mapping(RFC4648_HEX_UPPER@)
            .with_name("RFC4648 base32hex"@)
            .frozen(),
        res@.forward =~= RFC4648_HEX_UPPER@,
        res@.padding == false,
        res@.valid(),
        res@.lossless(),
{
    let b0 = Base32Variant::builder();
    let ghost d0 = b0@;
    let b1 = b0.mapping(&RFC4648_HEX_UPPER);
    let ghost d1 = b1@;
    let b2 = b1.name("RFC4648 base32hex");
    proof {
        lemma_empty_faithful();
        lemma_mapping_faithful(d0, RFC4648_HEX_UPPER@);
        lemma_name_faithful(d1, "RFC4648 base32hex"@);
        lemma_faithful_is_complete(b2@);
    }
    b2.build()
}

/// The alphabet of [`rfc4648_hex`], with padding.
pub fn rfc4648_hex_pad() -> (res: Base32Variant<'static>)
    ensures
        res@ == Draft::empty()
            .with_mapping(RFC4648_HEX_UPPER@)
            .with_name("RFC4648 base32hex padded"@)
            .with_padding(true)
            .frozen(),
        res@.forward =~= RFC4648_HEX_UPPER@,
        res@.padding == true,
        res@.valid(),
        res@.lossless(),
{
    let b0 = Base32Variant::builder();
    let ghost d0 = b0@;
    let b1 = b0.mapping(&RFC4648_HEX_UPPER);
    let ghost d1 = b1@;
    let b2 = b1.name("RFC4648 base32hex padded");
    let ghost d2 = b2@;
    let b3 = b2.padding(true);
    proof {
        lemma_empty_faithful();
        lemma_mapping_faithful(d0, RFC4648_HEX_UPPER@);
        lemma_name_faithful(d1, "RFC4648 base32hex padded"@);
        lemma_padding_faithful(d2, true);
        lemma_faithful_is_complete(b3@);
    }
    b3.build()
}

/// RFC 4648 Base32 with the extended hex alphabet, in lower case.
pub fn rfc4648_hex_lower() -> (res: Base32Variant<'static>)
    ensures
        res@ == Draft::empty()
            .with_mapping(RFC4648_HEX_LOWER_SLOTS@)
            .with_name("RFC4648 base32hex lower"@)
            .frozen(),
        res@.forward =~= RFC4648_HEX_LOWER_SLOTS@,
        res@.padding == false,
        res@.valid(),
        res@.lossless(),
{
    let b0 = Base32Variant::builder();
    let ghost d0 = b0@;
    let b1 = b0.mapping(&RFC4648_HEX_LOWER_SLOTS);
    let ghost d1 = b1@;
    let b2 = b1.name("RFC4648 base32hex lower");
    proof {
        lemma_empty_faithful();
        lemma_mapping_faithful(d0, RFC4648_HEX_LOWER_SLOTS@);
        lemma_name_faithful(d1, "RFC4648 base32hex lower"@);
        lemma_faithful_is_complete(b2@);
    }
    b2.build()
}

/// The alphabet of [`rfc4648_hex_lower`], with padding.
pub fn rfc4648_hex_lower_pad() -> (res: Base32Variant<'static>)
    ensures
        res@ == Draft::empty()
            .with_mapping(RFC4648_HEX_LOWER_SLOTS@)
            .with_name("RFC4648 base32hex lower padded"@)
            .with_padding(true)
            .frozen(),
        res@.forward =~= RFC4648_HEX_LOWER_SLOTS@,
        res@.padding == true,
        res@.valid(),
        res@.lossless(),
{
    let b0 = Base32Variant::builder();
    let ghost d0 = b0@;
    let b1 = b0.mapping(&RFC4648_HEX_LOWER_SLOTS);
    let ghost d1 = b1@;
    let b2 = b1.name("RFC4648 base32hex lower padded");
    let ghost d2 = b2@;
    let b3 = b2.padding(true);
    proof {
        lemma_empty_faithful();
        lemma_mapping_faithful(d0, RFC4648_HEX_LOWER_SLOTS@);
        lemma_name_faithful(d1, "RFC4648 base32hex lower padded"@);
        lemma_padding_faithful(d2, true);
        lemma_faithful_is_complete(b3@);
    }
    b3.build()
}

/// z-base-32.
pub fn z() -> (res: Base32Variant<'static>)
    ensures
        res@ == Draft::empty().with_mapping(Z_SLOTS@).with_name("z-based-32"@).frozen(),
        res@.forward =~= Z_SLOTS@,
        res@.padding == false,
        res@.valid(),
        res@.lossless(),
{
    let b0 = Base32Variant::builder();
    let ghost d0 = b0@;
    let b1 = b0.mapping(&Z_SLOTS);
    let ghost d1 = b1@;
    let b2 = b1.name("z-based-32");
    proof {
        lemma_empty_faithful();
        lemma_mapping_faithful(d0, Z_SLOTS@);
        lemma_name_faithful(d1, "z-based-32"@);
        lemma_faithful_is_complete(b2@);
    }
    b2.build()
}

/// YiDu: digits and upper case are written; lower case is read too, and `O`
/// as zero.
pub fn yidu() -> (res: Base32Variant<'static>)
    ensures
        res@ == Draft::empty()
            .with_mapping(YIDU_UPPER@)
            .with_mapping(YIDU_LOWER@)
            .with_aliases(LIKE_ZERO@, 0)
            .with_name("YiDu"@)
            .frozen(),
        res@.forward =~= YIDU_UPPER@,
        res@.padding == false,
        res@.valid(),
        res@.lossless(),
{
    let b0 = Base32Variant::builder();
    let ghost d0 = b0@;
    let b1 = b0.mapping(&YIDU_UPPER);
    let ghost d1 = b1@;
    let b2 = b1.mapping(&YIDU_LOWER);
    let ghost d2 = b2@;
    let b3 = b2.map_chars(&LIKE_ZERO, 0);
    let ghost d3 = b3@;
    let b4 = b3.name("YiDu");
    proof {
        lemma_empty_faithful();
        lemma_mapping_faithful(d0, YIDU_UPPER@);
        lemma_mapping_faithful(d1, YIDU_LOWER@);
        lemma_aliases_faithful(d2, LIKE_ZERO@, 0);
        lemma_name_faithful(d3, "YiDu"@);
        lemma_faithful_is_complete(b4@);
    }
    b4.build()
}

/// The alphabet of [`yidu`], with padding.
pub fn yidu_pad() -> (res: Base32Variant<'static>)
    ensures
        res@ == Draft::empty()
            .with_mapping(YIDU_UPPER@)
            .with_mapping(YIDU_LOWER@)
            .with_aliases(LIKE_ZERO@, 0)
            .with_name("YiDu padded"@)
            .with_padding(true)
            .frozen(),
        res@.forward =~= YIDU_UPPER@,
        res@.padding == true,
        res@.valid(),
        res@.lossless(),
{
    let b0 = Base32Variant::builder();
    let ghost d0 = b0@;
    let b1 = b0.mapping(&YIDU_UPPER);
    let ghost d1 = b1@;
    let b2 = b1.mapping(&YIDU_LOWER);
    let ghost d2 = b2@;
    let b3 = b2.map_chars(&LIKE_ZERO, 0);
    let ghost d3 = b3@;
    let b4 = b3.name("YiDu padded");
    let ghost d4 = b4@;
    let b5 = b4.padding(true);
    proof {
        lemma_empty_faithful();
        lemma_mapping_faithful(d0, YIDU_UPPER@);
        lemma_mapping_faithful(d1, YIDU_LOWER@);
        lemma_aliases_faithful(d2, LIKE_ZERO@, 0);
        lemma_name_faithful(d3, "YiDu padded"@);
        lemma_padding_faithful(d4, true);
        lemma_faithful_is_complete(b5@);
    }
    b5.build()
}

} // verus!

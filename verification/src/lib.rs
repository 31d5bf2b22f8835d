//! A configurable Base32 codec.
//!
//! Bytes are turned into ASCII text and back, five bits to a symbol, under an
//! alphabet that the caller picks or builds.
//!
//! - [`base32::variants`] holds the alphabets in common use: RFC 4648 and its
//!   extended hex alphabet, Crockford's, z-base-32 and YiDu.
//! - [`base32::Base32Variant::builder`] starts an alphabet of one's own.
//! - [`Encoder`] and [`Decoder`] are what an alphabet offers.
//!
//! Every function is verified with Verus against a contract. What text an
//! alphabet encodes data as and what bytes it decodes a text to is stated over
//! [`base32::Alphabet`], and [`base32::laws`] proves that decoding undoes
//! encoding.
//!
//! ## Usage
//!
//! Encoding and decoding under RFC 4648 with padding:
//!
//! ```rust
//! use base_n::base32::variants::rfc4648_pad;
//! use base_n::{Decoder, Encoder};
//!
//! let data = 0xB93246A429u64.to_be_bytes().to_vec();
//! let encoded = rfc4648_pad().encode(&data);
//! assert_eq!(encoded, "AAAABOJSI2SCS===");
//! assert_eq!(rfc4648_pad().decode(&encoded), Some(data));
//! ```
//!
//! An alphabet of one's own:
//!
//! ```rust
//! use base_n::base32::Base32Variant;
//! use base_n::Encoder;
//!
//! let custom = Base32Variant::builder()
//!     .name("Custom")
//!     .mapping(b"ABCDEFGHIJKLMNOPQRSTUVWXYZ123456")
//!     .build();
//! assert_eq!(custom.encode(b"Hello, world!"), "JBSWY2DPFQQHO22SNRSCC");
//! ```
use vstd::prelude::*;

pub mod base32;

verus! {

/// What encodes binary data as text.
pub trait Encoder {
    /// Encodes binary data as text.
    fn encode(&self, data: &[u8]) -> String;
}

/// What decodes text to binary data.
pub trait Decoder {
    /// Decodes text to the binary data that it stands for, if it stands for any.
    fn decode(&self, data: &str) -> Option<Vec<u8>>;
}

} // verus!

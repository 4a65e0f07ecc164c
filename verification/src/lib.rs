//! Decoding and encoding of WBMP (Wireless Bitmap) images.
//!
//! A WBMP image is a two-octet fixed header, the width and the height as
//! variable-length integers, and the pixels packed eight to an octet, each
//! row padded to a whole number of octets.
//!
//! The codec works on bytes held in memory. Every function carries a
//! contract over the mathematical models defined in [`header`] and
//! [`pixels`], and every contract is machine-checked.

pub mod codec;
pub mod color;
pub mod decoder;
pub mod encoder;
pub mod error;
pub mod header;
pub mod pixels;

pub use crate::color::ColorType;
pub use crate::decoder::Decoder;
pub use crate::encoder::Encoder;
pub use crate::error::WbmpError;

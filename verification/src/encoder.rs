use crate::codec::encoded_image;
use crate::color::ColorType;
use crate::error::{WbmpError, WbmpResult};
use crate::header::{continued_groups, header_octets, varint_octets};
use crate::pixels::{pack_rows, pack_rows_into, sample_bits};
use vstd::prelude::*;

verus! {

/// Default threshold value for `Encoder`.
pub const DEFAULT_THRESHOLD: u8 = 0x7F;

/// A WBMP encoder.
///
/// The encoder appends to the byte sink that it was made with. Samples
/// below the threshold become black pixels, samples from the threshold up
/// become white ones.
pub struct Encoder<'a> {
    /// The sink that every `encode` appends to.
    pub writer: &'a mut Vec<u8>,
    /// The cutoff between black and white.
    pub threshold: u8,
}

impl<'a> Encoder<'a> {
    /// Create a new encoder that writes to the sink `writer`, with the
    /// default threshold.
    pub fn new(writer: &'a mut Vec<u8>) -> (encoder: Self)
        ensures
            encoder.threshold == DEFAULT_THRESHOLD,
            *encoder.writer == *old(writer),
            *final(encoder.writer) == *final(writer),
    {
        Encoder { writer, threshold: DEFAULT_THRESHOLD }
    }

    /// Set the greyscale threshold to use.
    ///
    /// Greyscale values below this threshold will result in black pixels
    /// while values equal to it and above will be white. Default 127.
    pub fn with_threshold(self, threshold: u8) -> (encoder: Self)
        ensures
            encoder.threshold == threshold,
            *encoder.writer == *old(self.writer),
            *final(encoder.writer) == *final(self.writer),
    {
        Encoder { writer: self.writer, threshold }
    }

    /// The octets of `a` as a variable-length integer: its seven-bit groups
    /// from the most significant one down, each but the last marked as
    /// continued.
    pub fn bytes_from_u32(a: u32) -> (result: Vec<u8>)
        ensures
            result@ == varint_octets(a as nat),
    {
        let mut result: Vec<u8> = Vec::new();
        result.push((a & 0x7F) as u8);
        let mut rest: u32 = a >> 7;
        proof {
            assert((a & 0x7Fu32) as u8 == a % 128 && a >> 7u32 == a / 128) by (bit_vector);
            assert(result@ =~= continued_groups(0).push((a % 128) as u8));
        }
        while rest > 0
            invariant
                result@.len() >= 1,
                result@.last() == (a % 128) as u8,
                continued_groups((a / 128) as nat) == continued_groups(rest as nat)
                    + result@.drop_last(),
            decreases rest,
        {
            let group: u8 = 0x80 | ((rest & 0x7F) as u8);
            let ghost before = result@;
            result.insert(0, group);
            proof {
                assert(group == 128 + rest % 128 && rest >> 7u32 == rest / 128 && rest / 128
                    < rest) by (bit_vector)
                    requires
                        group == 0x80u8 | ((rest & 0x7Fu32) as u8),
                        rest > 0,
                ;
                assert(continued_groups(rest as nat) == continued_groups((rest / 128) as nat).push(
                    group,
                ));
                assert(continued_groups((rest / 128) as nat).push(group) + before.drop_last()
                    =~= continued_groups((rest / 128) as nat) + result@.drop_last());
            }
            rest = rest >> 7;
        }
        proof {
            assert(continued_groups(0) + result@.drop_last() =~= result@.drop_last());
            assert(result@ =~= result@.drop_last().push(result@.last()));
        }
        result
    }

    /// Encodes the image `image` with dimensions `width` by `height` and
    /// `ColorType` `color_type`, and appends it to the sink: first the
    /// header, then the packed rows.
    ///
    /// # Errors
    ///  - `WbmpError::InvalidImageData` occurs if `image` does not hold
    ///    exactly the samples of `width * height` pixels. The header has
    ///    been written by then.
    pub fn encode(&mut self, image: &[u8], width: u32, height: u32, color_type: ColorType) -> (r:
        WbmpResult<()>)
        ensures
            final(self).threshold == old(self).threshold,
            *final(final(self).writer) == *final(old(self).writer),
            image@.len() == width * height * color_type.bytes_per_pixel() ==> r is Ok
                && final(self).writer@ == old(self).writer@ + encoded_image(
                image@,
                width,
                height,
                color_type,
                old(self).threshold,
            ),
            image@.len() != width * height * color_type.bytes_per_pixel() ==> (r matches Err(
                WbmpError::InvalidImageData,
            )) && final(self).writer@ == old(self).writer@ + header_octets(width, height),
    {
        let ghost base = self.writer@;
        let width_bytes = Self::bytes_from_u32(width);
        let height_bytes = Self::bytes_from_u32(height);
        self.writer.push(0);
        self.writer.push(0);
        self.writer.extend_from_slice(width_bytes.as_slice());
        self.writer.extend_from_slice(height_bytes.as_slice());
        assert(self.writer@ =~= base + header_octets(width, height));
        let r = match color_type {
            ColorType::Rgba8 => self.encode_rgba8(image, width, height),
            ColorType::Luma8 => self.encode_luma8(image, width, height),
        };
        proof {
            let rows = pack_rows(
                sample_bits(image@, color_type, self.threshold),
                width as nat,
                height as nat,
            );
            assert(base + header_octets(width, height) + rows =~= base + (header_octets(
                width,
                height,
            ) + rows));
        }
        r
    }

    /// Appends the packed rows of a single-channel image to the sink.
    fn encode_luma8(&mut self, image: &[u8], width: u32, height: u32) -> (r: WbmpResult<()>)
        ensures
            final(self).threshold == old(self).threshold,
            *final(final(self).writer) == *final(old(self).writer),
            image@.len() == width * height ==> r is Ok && final(self).writer@ == old(self).writer@
                + pack_rows(
                sample_bits(image@, ColorType::Luma8, old(self).threshold),
                width as nat,
                height as nat,
            ),
            image@.len() != width * height ==> (r matches Err(WbmpError::InvalidImageData))
                && final(self).writer@ == old(self).writer@,
    {
        assert(width * height <= 0xFFFF_FFFF * 0xFFFF_FFFF) by (nonlinear_arith)
            requires
                width <= 0xFFFF_FFFF,
                height <= 0xFFFF_FFFF,
        ;
        let data_len: u64 = (width as u64) * (height as u64);
        if data_len != image.len() as u64 {
            return Err(WbmpError::InvalidImageData);
        }
        assert(width * height * 1 == width * height) by (nonlinear_arith);
        pack_rows_into(self.writer, image, width, height, ColorType::Luma8, self.threshold);
        Ok(())
    }

    /// Appends the packed rows of a four-channel image to the sink.
    fn encode_rgba8(&mut self, image: &[u8], width: u32, height: u32) -> (r: WbmpResult<()>)
        ensures
            final(self).threshold == old(self).threshold,
            *final(final(self).writer) == *final(old(self).writer),
            image@.len() == width * height * 4 ==> r is Ok && final(self).writer@ == old(
                self,
            ).writer@ + pack_rows(
                sample_bits(image@, ColorType::Rgba8, old(self).threshold),
                width as nat,
                height as nat,
            ),
            image@.len() != width * height * 4 ==> (r matches Err(WbmpError::InvalidImageData))
                && final(self).writer@ == old(self).writer@,
    {
        assert(width * height * 4 <= 0xFFFF_FFFF * 0xFFFF_FFFF * 4) by (nonlinear_arith)
            requires
                width <= 0xFFFF_FFFF,
                height <= 0xFFFF_FFFF,
        ;
        assert(width * height <= 0xFFFF_FFFF * 0xFFFF_FFFF) by (nonlinear_arith)
            requires
                width <= 0xFFFF_FFFF,
                height <= 0xFFFF_FFFF,
        ;
        let data_len: u128 = (width as u128) * (height as u128) * 4;
        if data_len != image.len() as u128 {
            return Err(WbmpError::InvalidImageData);
        }
        pack_rows_into(self.writer, image, width, height, ColorType::Rgba8, self.threshold);
        Ok(())
    }
}

} // verus!

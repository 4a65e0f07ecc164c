//! The whole image stream: the header, then the packed rows.
use crate::color::ColorType;
use crate::header::{header_octets, lemma_header_round_trip, parse_header, HeaderParse};
use crate::pixels::{
    lemma_pack_rows_len, lemma_rows_round_trip, pack_rows, paint, row_octets, sample_bits,
    unpack_rows,
};
use vstd::prelude::*;

verus! {

/// The octets of the image `width` by `height` that `samples` reduce to at
/// `threshold`: the header, then the packed rows.
pub open spec fn encoded_image(
    samples: Seq<u8>,
    width: u32,
    height: u32,
    color: ColorType,
    threshold: u8,
) -> Seq<u8> {
    header_octets(width, height) + pack_rows(
        sample_bits(samples, color, threshold),
        width as nat,
        height as nat,
    )
}

/// Number of rows that a reader gets out of `data` for an image `width` by
/// `height`: all of them if `data` holds them all, else the whole rows that
/// `data` holds.
pub open spec fn rows_held(data: Seq<u8>, width: u32, height: u32) -> nat {
    if height * row_octets(width as nat) <= data.len() {
        height as nat
    } else {
        data.len() / row_octets(width as nat)
    }
}

/// `canvas` after the rows that `data` holds are unpacked into it from its
/// first byte on: `0xFF` where a pixel is white, the canvas as it was where
/// a pixel is black and past the last pixel.
pub open spec fn decoded_pixels(canvas: Seq<u8>, data: Seq<u8>, width: u32, height: u32) -> Seq<
    u8,
> {
    paint(canvas, 0, unpack_rows(data, width as nat, rows_held(data, width, height)))
}

/// Round trip: a luminance image whose pixels are all `0x00` or `0xFF`,
/// encoded at a threshold that keeps `0x00` black, decodes into a zeroed
/// buffer as the very same pixels. The encoded stream reads back with the
/// same width and height, and the octets after its header are exactly the
/// rows of the image.
pub proof fn lemma_luma8_round_trip(
    pixels: Seq<u8>,
    width: u32,
    height: u32,
    threshold: u8,
    canvas: Seq<u8>,
)
    requires
        pixels.len() == width * height,
        forall|i: int| 0 <= i < pixels.len() ==> pixels[i] == 0x00 || pixels[i] == 0xFF,
        threshold > 0 || forall|i: int| 0 <= i < pixels.len() ==> pixels[i] == 0xFF,
        canvas.len() == pixels.len(),
        forall|i: int| 0 <= i < canvas.len() ==> canvas[i] == 0x00,
    ensures
        ({
            let stream = encoded_image(pixels, width, height, ColorType::Luma8, threshold);
            let consumed = header_octets(width, height).len();
            &&& parse_header(stream) == (HeaderParse::Parsed { width, height, consumed })
            &&& stream.skip(consumed as int).len() == height * row_octets(width as nat)
            &&& decoded_pixels(canvas, stream.skip(consumed as int), width, height) == pixels
        }),
{
    let bits = sample_bits(pixels, ColorType::Luma8, threshold);
    let rows = pack_rows(bits, width as nat, height as nat);
    let stream = encoded_image(pixels, width, height, ColorType::Luma8, threshold);
    let consumed = header_octets(width, height).len();
    assert(height * width == width * height) by (nonlinear_arith);
    lemma_header_round_trip(width, height, rows);
    lemma_pack_rows_len(bits, width as nat, height as nat);
    lemma_rows_round_trip(bits, width as nat, height as nat);
    assert(stream.skip(consumed as int) =~= rows);
    assert(bits.take((height * width) as int) =~= bits);
    assert(decoded_pixels(canvas, rows, width, height) =~= pixels);
}

} // verus!

use crate::codec::{decoded_pixels, rows_held};
use crate::error::{WbmpError, WbmpResult};
use crate::header::{
    lemma_parse_header_prefix, parse_header, HeaderParse, HeaderParser, HeaderProgress,
};
use crate::pixels::{
    lemma_unpack_rows_len, paint, row_len, row_octets, unpack_row, unpack_row_into, unpack_rows,
};
use vstd::prelude::*;
use vstd::slice::slice_subrange;
use vstd::string::StringExecFns;

verus! {

/// The error of a read that met the end of its source:
/// `std::io::Error::from(std::io::ErrorKind::UnexpectedEof)`. Nothing is
/// claimed of the value.
#[verifier::external_body]
fn unexpected_eof() -> std::io::Error {
    std::io::Error::from(std::io::ErrorKind::UnexpectedEof)
}

/// A WBMP decoder.
///
/// The decoder reads from a byte source held in memory and keeps its place
/// in it: every read consumes the octets it takes, and a read that the
/// source cannot fill consumes all that is left.
pub struct Decoder<'a> {
    reader: &'a [u8],
    width: u32,
    height: u32,
}

impl<'a> Decoder<'a> {
    /// The octets of the source that have not been read yet.
    pub closed spec fn unread(&self) -> Seq<u8> {
        self.reader@
    }

    /// The `(width, height)` of the image.
    pub closed spec fn spec_dimensions(&self) -> (u32, u32) {
        (self.width, self.height)
    }

    /// Create a new decoder that decodes from the stream `reader`. The
    /// header is read at once; the decoder is left at the first octet of the
    /// pixel data.
    ///
    /// # Errors
    ///  - `WbmpError::UnsupportedType` occurs if the type field in the image
    ///    headers is not set to 0.
    ///  - `WbmpError::UnsupportedHeaders` occurs if extension headers are
    ///    specified in the image. Extension headers are not required for type
    ///    0 WBMP images.
    ///  - `WbmpError::IoError` occurs if the stream ends within the headers.
    pub fn new(reader: &'a [u8]) -> (r: WbmpResult<Decoder<'a>>)
        ensures
            match parse_header(reader@) {
                HeaderParse::Parsed { width, height, consumed } => r matches Ok(decoder)
                    && decoder.spec_dimensions() == (width, height) && decoder.unread()
                    == reader@.skip(consumed as int),
                HeaderParse::UnsupportedType(type_code) => r matches Err(
                    WbmpError::UnsupportedType(t),
                ) && t == type_code,
                HeaderParse::UnsupportedHeaders => r matches Err(WbmpError::UnsupportedHeaders),
                HeaderParse::Truncated => r matches Err(WbmpError::IoError(_)),
            },
    {
        let mut decoder = Self::new_decoder(reader);
        match decoder.read_metadata() {
            Ok(()) => Ok(decoder),
            Err(e) => Err(e),
        }
    }

    fn new_decoder(reader: &'a [u8]) -> (decoder: Decoder<'a>)
        ensures
            decoder.unread() == reader@,
            decoder.spec_dimensions() == (0u32, 0u32),
    {
        Decoder { reader, width: 0, height: 0 }
    }

    /// Returns the `(width, height)` of the image.
    #[verifier::when_used_as_spec(spec_dimensions)]
    pub fn dimensions(&self) -> (d: (u32, u32))
        ensures
            d == self.spec_dimensions(),
    {
        (self.width, self.height)
    }

    /// Reads the header octet by octet and stops at the first octet that
    /// completes or rejects it. The octets read are consumed, none beyond
    /// them.
    #[verifier::loop_isolation(false)]
    fn read_metadata(&mut self) -> (r: WbmpResult<()>)
        ensures
            match parse_header(old(self).unread()) {
                HeaderParse::Parsed { width, height, consumed } => r is Ok
                    && final(self).spec_dimensions() == (width, height) && final(self).unread()
                    == old(self).unread().skip(consumed as int),
                HeaderParse::UnsupportedType(type_code) => r matches Err(
                    WbmpError::UnsupportedType(t),
                ) && t == type_code && final(self).unread() == old(self).unread().skip(1),
                HeaderParse::UnsupportedHeaders => r matches Err(WbmpError::UnsupportedHeaders)
                    && final(self).unread() == old(self).unread().skip(2),
                HeaderParse::Truncated => r matches Err(WbmpError::IoError(_))
                    && final(self).unread() == Seq::<u8>::empty(),
            },
            r is Err ==> final(self).spec_dimensions() == old(self).spec_dimensions(),
    {
        let ghost source = self.reader@;
        let len = self.reader.len();
        let mut parser = HeaderParser::new();
        let mut pos: usize = 0;
        assert(source.take(0) =~= Seq::<u8>::empty());
        loop
            invariant
                self.reader@ == source,
                len == source.len(),
                pos <= len,
                parser.seen() == source.take(pos as int),
                parse_header(parser.seen()) is Truncated,
                self.spec_dimensions() == old(self).spec_dimensions(),
            decreases len - pos,
        {
            if pos >= len {
                assert(source.take(pos as int) =~= source);
                self.reader = slice_subrange(self.reader, len, len);
                assert(self.reader@ =~= Seq::<u8>::empty());
                return Err(WbmpError::IoError(unexpected_eof()));
            }
            let octet = self.reader[pos];
            pos += 1;
            proof {
                assert(source.take(pos as int) =~= source.take(pos - 1).push(octet));
            }
            match parser.push(octet) {
                Err(e) => {
                    proof {
                        lemma_parse_header_prefix(source, pos as int);
                    }
                    self.reader = slice_subrange(self.reader, pos, len);
                    return Err(e);
                },
                Ok(HeaderProgress::Complete { width, height }) => {
                    proof {
                        lemma_parse_header_prefix(source, pos as int);
                    }
                    self.width = width;
                    self.height = height;
                    self.reader = slice_subrange(self.reader, pos, len);
                    return Ok(());
                },
                Ok(HeaderProgress::Pending(next)) => {
                    parser = next;
                },
            }
        }
    }

    /// Reads the image data bits into the provided buffer, one byte per
    /// pixel, row by row from `buf[0]` on: a white pixel is written as
    /// `0xFF`, a black pixel leaves its byte as it is, so a zeroed buffer
    /// ends up holding `0x00` for black. Bytes past `width * height` are not
    /// touched.
    ///
    /// Every call reads on from where the last read stopped: a second call
    /// does not read the same rows again.
    ///
    /// # Errors
    ///  - `WbmpError::UsageError` occurs if `buf` is shorter than
    ///    `width * height`. Nothing is read or written.
    ///  - `WbmpError::IoError` occurs if the stream ends within the pixel
    ///    data. The rows read before it ended are in `buf`, and the stream
    ///    is used up.
    #[verifier::loop_isolation(false)]
    pub fn read_image_data(&mut self, buf: &mut [u8]) -> (r: WbmpResult<()>)
        ensures
            final(self).spec_dimensions() == old(self).spec_dimensions(),
            ({
                let (width, height) = old(self).spec_dimensions();
                let data = old(self).unread();
                if old(buf)@.len() < width * height {
                    &&& r matches Err(WbmpError::UsageError(reason))
                    &&& reason@ == "Provided buffer does not have enough capacity"@
                    &&& final(buf)@ == old(buf)@
                    &&& final(self).unread() == data
                } else if data.len() < height * row_octets(width as nat) {
                    &&& r matches Err(WbmpError::IoError(_))
                    &&& final(buf)@ == decoded_pixels(old(buf)@, data, width, height)
                    &&& final(self).unread() == Seq::<u8>::empty()
                } else {
                    &&& r is Ok
                    &&& final(buf)@ == decoded_pixels(old(buf)@, data, width, height)
                    &&& final(self).unread() == data.skip(height * row_octets(width as nat))
                }
            }),
    {
        let width = self.width;
        let height = self.height;
        let ghost data = self.reader@;
        let ghost canvas = buf@;
        let ghost ro = row_octets(width as nat);
        assert(width * height <= 0xFFFF_FFFF * 0xFFFF_FFFF) by (nonlinear_arith)
            requires
                width <= 0xFFFF_FFFF,
                height <= 0xFFFF_FFFF,
        ;
        let data_len: u64 = (width as u64) * (height as u64);
        if (buf.len() as u64) < data_len {
            return Err(
                WbmpError::UsageError(
                    String::from_str("Provided buffer does not have enough capacity"),
                ),
            );
        }
        let row_bytes = row_len(width);
        let mut index: usize = 0;
        let mut y: u32 = 0;
        proof {
            assert(y * ro == 0 && y * width == 0) by (nonlinear_arith)
                requires
                    y == 0,
            ;
            assert(data.skip(0) =~= data);
            assert(buf@ =~= paint(canvas, 0, unpack_rows(data, width as nat, 0)));
        }
        while y < height
            invariant
                y <= height,
                width == self.width,
                height == self.height,
                ro == row_octets(width as nat),
                row_bytes == ro,
                width * height <= canvas.len(),
                buf@.len() == canvas.len(),
                index == y * width,
                y * ro <= data.len(),
                self.reader@ == data.skip(y * ro),
                buf@ == paint(canvas, 0, unpack_rows(data, width as nat, y as nat)),
            decreases height - y,
        {
            let left = self.reader.len();
            let ghost lo: int = y * ro;
            let ghost hi: int = (y + 1) * ro;
            proof {
                assert(hi == lo + ro && (y + 1) * width == y * width + width) by (nonlinear_arith)
                    requires
                        lo == y * ro,
                        hi == (y + 1) * ro,
                ;
                assert((y + 1) * width <= height * width && (y + 1) * ro <= height * ro
                    && height * width == width * height) by (nonlinear_arith)
                    requires
                        y < height,
                ;
            }
            if left < row_bytes {
                proof {
                    assert(data.len() < hi);
                    vstd::arithmetic::div_mod::lemma_fundamental_div_mod_converse(
                        data.len() as int,
                        ro as int,
                        y as int,
                        data.len() - lo,
                    );
                    assert(ro * y == y * ro) by (nonlinear_arith);
                    assert(rows_held(data, width, height) == y);
                }
                self.reader = slice_subrange(self.reader, left, left);
                assert(self.reader@ =~= Seq::<u8>::empty());
                return Err(WbmpError::IoError(unexpected_eof()));
            }
            let row = slice_subrange(self.reader, 0, row_bytes);
            unpack_row_into(row, width, buf, index);
            self.reader = slice_subrange(self.reader, row_bytes, left);
            proof {
                let before = unpack_rows(data, width as nat, y as nat);
                let bits = unpack_row(row@, width as nat);
                lemma_unpack_rows_len(data, width as nat, y as nat);
                assert(row@ =~= data.subrange(lo, hi));
                assert(self.reader@ =~= data.skip(hi));
                assert(unpack_rows(data, width as nat, (y + 1) as nat) == before + bits);
                assert(buf@ =~= paint(canvas, 0, before + bits));
            }
            index += width as usize;
            y += 1;
        }
        Ok(())
    }
}

} // verus!

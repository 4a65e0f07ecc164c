//! The pixel data: one bit per pixel, eight pixels to an octet, the
//! leftmost pixel in the highest bit, each row padded with zero bits to a
//! whole number of octets. A set bit is a white pixel.
use crate::color::ColorType;
use vstd::prelude::*;

verus! {

/// Number of octets that hold one packed row of `width` pixels.
pub open spec fn row_octets(width: nat) -> nat {
    (width + 7) / 8
}

/// The bit of an octet that holds the pixel at place `j` of its eight,
/// counted from the left.
pub open spec fn bit_mask(j: u8) -> u8 {
    0x80u8 >> j
}

/// Whether the pixel at place `j` of `octet` is white.
pub open spec fn octet_bit(octet: u8, j: u8) -> bool {
    octet & bit_mask(j) != 0
}

/// Whether `row` has a pixel at `x` and that pixel is white.
pub open spec fn pixel_at(row: Seq<bool>, x: int) -> bool {
    0 <= x < row.len() && row[x]
}

/// Octet `k` of the packed `row`, with only the first `n` of its eight
/// places filled in. Places past the end of the row stay zero.
pub open spec fn packed_octet(row: Seq<bool>, k: int, n: nat) -> u8
    decreases n,
{
    if n == 0 {
        0
    } else {
        let rest = packed_octet(row, k, (n - 1) as nat);
        if pixel_at(row, 8 * k + n - 1) {
            rest | bit_mask((n - 1) as u8)
        } else {
            rest
        }
    }
}

/// The octets of one packed row.
pub open spec fn pack_row(row: Seq<bool>) -> Seq<u8> {
    Seq::new(row_octets(row.len()), |k: int| packed_octet(row, k, 8))
}

/// The octets of the first `rows` rows of an image of `width` pixels a row,
/// whose pixels are `bits` in row-major order.
pub open spec fn pack_rows(bits: Seq<bool>, width: nat, rows: nat) -> Seq<u8>
    decreases rows,
{
    if rows == 0 {
        Seq::empty()
    } else {
        pack_rows(bits, width, (rows - 1) as nat) + pack_row(
            bits.subrange((rows - 1) * width, (rows * width) as int),
        )
    }
}

/// The `width` pixels of one packed row. Padding bits are not looked at.
pub open spec fn unpack_row(octets: Seq<u8>, width: nat) -> Seq<bool> {
    Seq::new(width, |x: int| octet_bit(octets[x / 8], (x % 8) as u8))
}

/// The pixels, in row-major order, of the first `rows` packed rows in
/// `data`, each row `width` pixels wide.
pub open spec fn unpack_rows(data: Seq<u8>, width: nat, rows: nat) -> Seq<bool>
    decreases rows,
{
    if rows == 0 {
        Seq::empty()
    } else {
        unpack_rows(data, width, (rows - 1) as nat) + unpack_row(
            data.subrange((rows - 1) * row_octets(width), (rows * row_octets(width)) as int),
            width,
        )
    }
}

/// `canvas` after the white pixels among `bits` are written into it as
/// `0xFF`, the first of them at `start`. Black pixels leave the canvas as it
/// is.
pub open spec fn paint(canvas: Seq<u8>, start: int, bits: Seq<bool>) -> Seq<u8> {
    Seq::new(
        canvas.len(),
        |i: int|
            if start <= i < start + bits.len() && bits[i - start] {
                0xFFu8
            } else {
                canvas[i]
            },
    )
}

/// Threshold reduction of a luminance sample: white from the threshold up.
pub open spec fn luma8_is_white(sample: u8, threshold: u8) -> bool {
    sample >= threshold
}

/// Threshold reduction of a four-channel sample: the mean of all four
/// channels, alpha included, rounded down, is compared with the threshold.
pub open spec fn rgba8_is_white(r: u8, g: u8, b: u8, a: u8, threshold: u8) -> bool {
    (r + g + b + a) / 4 >= threshold
}

/// The pixels that `samples` reduce to, one for each whole sample.
pub open spec fn sample_bits(samples: Seq<u8>, color: ColorType, threshold: u8) -> Seq<bool> {
    match color {
        ColorType::Luma8 => Seq::new(
            samples.len(),
            |i: int| luma8_is_white(samples[i], threshold),
        ),
        ColorType::Rgba8 => Seq::new(
            samples.len() / 4,
            |i: int|
                rgba8_is_white(
                    samples[4 * i],
                    samples[4 * i + 1],
                    samples[4 * i + 2],
                    samples[4 * i + 3],
                    threshold,
                ),
        ),
    }
}

/// Threshold boundary: a luminance sample equal to the threshold is white,
/// and the sample one below the threshold is black.
pub proof fn lemma_threshold_boundary(sample: u8, threshold: u8)
    ensures
        sample == threshold ==> luma8_is_white(sample, threshold),
        sample + 1 == threshold ==> !luma8_is_white(sample, threshold),
{
}

/// Packed rows take `row_octets(width)` octets each.
pub proof fn lemma_pack_rows_len(bits: Seq<bool>, width: nat, rows: nat)
    requires
        rows * width <= bits.len(),
    ensures
        pack_rows(bits, width, rows).len() == rows * row_octets(width),
    decreases rows,
{
    let ro = row_octets(width);
    if rows == 0 {
        assert(rows * ro == 0) by (nonlinear_arith)
            requires
                rows == 0,
        ;
    } else {
        let above = (rows - 1) as nat;
        assert(above * width + width == rows * width && above * ro + ro == rows * ro)
            by (nonlinear_arith)
            requires
                above + 1 == rows,
        ;
        lemma_pack_rows_len(bits, width, above);
    }
}

/// Unpacked rows hold `width` pixels each.
pub proof fn lemma_unpack_rows_len(data: Seq<u8>, width: nat, rows: nat)
    ensures
        unpack_rows(data, width, rows).len() == rows * width,
    decreases rows,
{
    if rows == 0 {
        assert(rows * width == 0) by (nonlinear_arith)
            requires
                rows == 0,
        ;
    } else {
        let above = (rows - 1) as nat;
        assert(above * width + width == rows * width) by (nonlinear_arith)
            requires
                above + 1 == rows,
        ;
        lemma_unpack_rows_len(data, width, above);
    }
}

/// The first `rows` rows depend on the first `rows * row_octets(width)`
/// octets only.
pub proof fn lemma_unpack_rows_prefix(a: Seq<u8>, b: Seq<u8>, width: nat, rows: nat)
    requires
        rows * row_octets(width) <= a.len(),
        rows * row_octets(width) <= b.len(),
        a.take((rows * row_octets(width)) as int) == b.take((rows * row_octets(width)) as int),
    ensures
        unpack_rows(a, width, rows) == unpack_rows(b, width, rows),
    decreases rows,
{
    if rows > 0 {
        let ro = row_octets(width);
        let lo: int = (rows - 1) * ro;
        let hi: int = (rows * ro) as int;
        assert(0 <= lo <= hi && hi - lo == ro) by (nonlinear_arith)
            requires
                rows > 0,
                lo == (rows - 1) * ro,
                hi == rows * ro,
        ;
        assert(a.take(lo) =~= a.take(hi).take(lo));
        assert(b.take(lo) =~= b.take(hi).take(lo));
        lemma_unpack_rows_prefix(a, b, width, (rows - 1) as nat);
        assert(a.subrange(lo, hi) =~= a.take(hi).subrange(lo, hi));
        assert(b.subrange(lo, hi) =~= b.take(hi).subrange(lo, hi));
    }
}

/// An octet filled up to the end of its row is a whole octet: the places
/// past the end of the row add nothing.
pub proof fn lemma_packed_octet_padding(row: Seq<bool>, k: int, n: nat, m: nat)
    requires
        n <= m,
        8 * k + n >= row.len(),
    ensures
        packed_octet(row, k, m) == packed_octet(row, k, n),
    decreases m,
{
    if n < m {
        lemma_packed_octet_padding(row, k, n, (m - 1) as nat);
    }
}

/// The places of a partly filled octet: a filled place holds its pixel, an
/// unfilled place is zero.
pub proof fn lemma_packed_octet_bits(row: Seq<bool>, k: int, n: nat, j: u8)
    requires
        n <= 8,
        j < 8,
    ensures
        octet_bit(packed_octet(row, k, n), j) == (j < n && pixel_at(row, 8 * k + j)),
    decreases n,
{
    if n == 0 {
        assert(0u8 & (0x80u8 >> j) == 0) by (bit_vector);
    } else {
        let rest = packed_octet(row, k, (n - 1) as nat);
        let m = (n - 1) as u8;
        lemma_packed_octet_bits(row, k, (n - 1) as nat, j);
        assert(((rest | (0x80u8 >> m)) & (0x80u8 >> j) != 0) == ((rest & (0x80u8 >> j) != 0) || m
            == j)) by (bit_vector)
            requires
                m < 8,
                j < 8,
        ;
    }
}

/// Unpacking a packed row gives the row back.
pub proof fn lemma_row_round_trip(row: Seq<bool>)
    ensures
        unpack_row(pack_row(row), row.len()) == row,
{
    let packed = pack_row(row);
    assert forall|x: int| 0 <= x < row.len() implies unpack_row(packed, row.len())[x] == row[x] by {
        lemma_packed_octet_bits(row, x / 8, 8, (x % 8) as u8);
    }
    assert(unpack_row(packed, row.len()) =~= row);
}

/// Unpacking packed rows gives the pixels back.
pub proof fn lemma_rows_round_trip(bits: Seq<bool>, width: nat, rows: nat)
    requires
        rows * width <= bits.len(),
    ensures
        unpack_rows(pack_rows(bits, width, rows), width, rows) == bits.take((rows * width) as int),
    decreases rows,
{
    if rows == 0 {
        assert(rows * width == 0) by (nonlinear_arith)
            requires
                rows == 0,
        ;
        assert(bits.take(0) =~= Seq::<bool>::empty());
    } else {
        let ro = row_octets(width);
        let lo: int = (rows - 1) * width;
        let hi: int = (rows * width) as int;
        assert(0 <= lo <= hi && hi - lo == width) by (nonlinear_arith)
            requires
                rows > 0,
                lo == (rows - 1) * width,
                hi == rows * width,
        ;
        let row = bits.subrange(lo, hi);
        let head = pack_rows(bits, width, (rows - 1) as nat);
        let all = pack_rows(bits, width, rows);
        lemma_pack_rows_len(bits, width, (rows - 1) as nat);
        lemma_pack_rows_len(bits, width, rows);
        assert(rows * ro == (rows - 1) * ro + ro) by (nonlinear_arith);
        assert(all.take(((rows - 1) * ro) as int) =~= head);
        assert(head.take(((rows - 1) * ro) as int) =~= head);
        lemma_unpack_rows_prefix(all, head, width, (rows - 1) as nat);
        lemma_rows_round_trip(bits, width, (rows - 1) as nat);
        assert(all.subrange((rows - 1) * ro, (rows * ro) as int) =~= pack_row(row));
        lemma_row_round_trip(row);
        assert(bits.take(lo) + row =~= bits.take(hi));
    }
}

/// Number of octets that hold one packed row of `width` pixels.
pub fn row_len(width: u32) -> (n: usize)
    ensures
        n == row_octets(width as nat),
{
    if width % 8 == 0 {
        (width / 8) as usize
    } else {
        (width / 8) as usize + 1
    }
}

/// Unpacks one row: for each of the `width` pixels of the packed row
/// `octets`, writes `0xFF` into `out` if the pixel is white and leaves `out`
/// as it is if the pixel is black. The first pixel goes to `out[start]`.
/// Padding bits are skipped.
pub fn unpack_row_into(octets: &[u8], width: u32, out: &mut [u8], start: usize)
    requires
        octets@.len() == row_octets(width as nat),
        start + width <= old(out)@.len(),
    ensures
        final(out)@ == paint(old(out)@, start as int, unpack_row(octets@, width as nat)),
{
    let ghost canvas = out@;
    let ghost bits = unpack_row(octets@, width as nat);
    let capacity = out.len();
    let mut x: u32 = 0;
    assert(out@ =~= paint(canvas, start as int, bits.take(0)));
    while x < width
        invariant
            x <= width,
            octets@.len() == row_octets(width as nat),
            start + width <= canvas.len(),
            out@.len() == canvas.len() == capacity,
            bits == unpack_row(octets@, width as nat),
            out@ == paint(canvas, start as int, bits.take(x as int)),
        decreases width - x,
    {
        let octet = octets[(x / 8) as usize];
        let place = (x % 8) as u8;
        if octet & (0x80u8 >> place) != 0 {
            out[start + x as usize] = 0xFF;
        }
        assert(bits[x as int] == octet_bit(octet, place));
        assert(out@ =~= paint(canvas, start as int, bits.take(x + 1)));
        x += 1;
    }
    assert(bits.take(width as int) =~= bits);
}

/// Reduces sample `index` of `samples` to one bit: whether it is white.
pub(crate) fn sample_is_white(samples: &[u8], index: usize, color: ColorType, threshold: u8) -> (white:
    bool)
    requires
        index < sample_bits(samples@, color, threshold).len(),
    ensures
        white == sample_bits(samples@, color, threshold)[index as int],
{
    match color {
        ColorType::Luma8 => samples[index] >= threshold,
        ColorType::Rgba8 => {
            assert(index * 4 + 3 < samples.len());
            let at = index * 4;
            let sum = samples[at] as u16 + samples[at + 1] as u16 + samples[at + 2] as u16
                + samples[at + 3] as u16;
            sum / 4 >= threshold as u16
        },
    }
}

/// Packs an image: reduces each sample of `samples` to one bit and appends
/// the packed rows to `out`. Each row starts a new octet; the padding bits
/// of its last octet are zero.
pub(crate) fn pack_rows_into(
    out: &mut Vec<u8>,
    samples: &[u8],
    width: u32,
    height: u32,
    color: ColorType,
    threshold: u8,
)
    requires
        samples@.len() == width * height * color.bytes_per_pixel(),
    ensures
        final(out)@ == old(out)@ + pack_rows(
            sample_bits(samples@, color, threshold),
            width as nat,
            height as nat,
        ),
{
    let ghost base = out@;
    let ghost bits = sample_bits(samples@, color, threshold);
    assert(bits.len() == width * height) by {
        assert(width * height * 1 == width * height) by (nonlinear_arith);
        assert((width * height * 4) / 4 == width * height) by (nonlinear_arith);
    }
    let total = samples.len();
    let mut index: usize = 0;
    let mut y: u32 = 0;
    assert(out@ =~= base + pack_rows(bits, width as nat, 0));
    while y < height
        invariant
            y <= height,
            bits == sample_bits(samples@, color, threshold),
            bits.len() == width * height,
            bits.len() <= total,
            index == y * width,
            out@ == base + pack_rows(bits, width as nat, y as nat),
        decreases height - y,
    {
        let ghost lo = y * width;
        let ghost hi = (y + 1) * width;
        assert(0 <= lo <= hi <= bits.len() && hi - lo == width) by (nonlinear_arith)
            requires
                lo == y * width,
                hi == (y + 1) * width,
                y < height,
                bits.len() == width * height,
        ;
        let ghost row = bits.subrange(lo, hi);
        let ghost done = out@;
        let ghost flushed: int = 0;
        let mut byte: u8 = 0;
        let mut filled: u8 = 0;
        let mut x: u32 = 0;
        assert(out@ =~= done + pack_row(row).take(0));
        while x < width
            invariant
                x <= width,
                bits == sample_bits(samples@, color, threshold),
                bits.len() == width * height,
                bits.len() <= total,
                0 <= lo <= hi <= bits.len(),
                lo == y * width,
                hi - lo == width,
                row == bits.subrange(lo, hi),
                index == lo + x,
                x < width ==> filled == x % 8 && flushed == x / 8,
                x == width ==> flushed == row_octets(width as nat),
                x < width ==> byte == packed_octet(row, flushed, filled as nat),
                out@ == done + pack_row(row).take(flushed),
            decreases width - x,
        {
            if sample_is_white(samples, index, color, threshold) {
                byte |= 0x80u8 >> filled;
            }
            assert(pixel_at(row, 8 * flushed + filled) == bits[index as int]);
            assert(byte == packed_octet(row, flushed, (filled + 1) as nat));
            filled += 1;
            x += 1;
            index += 1;
            if filled == 8 || x == width {
                proof {
                    if filled < 8 {
                        lemma_packed_octet_padding(row, flushed, filled as nat, 8);
                    }
                    assert(pack_row(row).take(flushed).push(byte) =~= pack_row(row).take(
                        flushed + 1,
                    ));
                    flushed = flushed + 1;
                }
                out.push(byte);
                byte = 0;
                filled = 0;
            }
        }
        proof {
            assert(pack_row(row).take(flushed) =~= pack_row(row));
            assert(out@ =~= base + pack_rows(bits, width as nat, (y + 1) as nat));
        }
        y += 1;
    }
}

} // verus!

//! The decoder: header parsing and validation, optional decompression, and
//! the conversion of the tiled payload into row-major pixels.
use vstd::prelude::*;

use vstd::slice::slice_subrange;

use byteorder::ByteOrder;
use nintendo_lz::errors::{InvalidMagicNumberError, OutOfRangeError};

use crate::colour_type::{
    colour_type_of_code,
    converted_pixel, copy_and_convert_pixel_data, input_stride, output_stride, JupiterColourType,
};
use crate::error::{Error, NintendoLzError, Truncation};
use crate::lz::{lz_references_checked, lz_references_in_range};
use crate::tiling::{
    lemma_index_to_position, lemma_position_to_index, pixel_x, pixel_y, source_index,
};
use crate::util::{
    decimal_ordinate_to_x_y, is_power_of_two, lemma_next_power_of_two_is, lemma_padded_dimension,
    lemma_power_of_two_from_bits, next_largest_power_of_2, next_multiple_of, next_power_of_two,
    round_up,
};

verus! {

const TILE_SIZE: usize = 8;
const TILE_AREA: usize = 64;
pub const COMPRESSED_DATA_MARKER_LZ10: u8 = 0x10;
pub const COMPRESSED_DATA_MARKER_LZ11: u8 = 0x11;
pub const HEADER_SIZE: usize = 16;

/// The little-endian 32-bit word at offset `i` of `b`.
pub open spec fn le_u32(b: Seq<u8>, i: int) -> int {
    b[i] + 256 * b[i + 1] + 65536 * b[i + 2] + 16777216 * b[i + 3]
}

/// The offset at which the pixel payload of `b` starts.
pub open spec fn header_length(b: Seq<u8>) -> nat {
    le_u32(b, 0) as nat
}

/// The raw colour format code of the header of `b`.
pub open spec fn colour_code(b: Seq<u8>) -> u32 {
    le_u32(b, 4) as u32
}

/// The image width given by the header of `b`.
pub open spec fn header_width(b: Seq<u8>) -> nat {
    le_u32(b, 8) as nat
}

/// The image height given by the header of `b`.
pub open spec fn header_height(b: Seq<u8>) -> nat {
    le_u32(b, 12) as nat
}

/// The stored pixels of `b`: everything after the header.
pub open spec fn payload(b: Seq<u8>) -> Seq<u8> {
    b.subrange(header_length(b) as int, b.len() as int)
}

/// Whether the payload of `b`, of colour format `c`, holds exactly one stored
/// pixel for each position of the padded canvas that the header describes
/// (bytes after the last whole pixel are ignored). A header with a zero
/// dimension describes no canvas.
pub open spec fn payload_fits(b: Seq<u8>, c: JupiterColourType) -> bool {
    &&& header_width(b) >= 1
    &&& header_height(b) >= 1
    &&& header_length(b) <= b.len()
    &&& payload(b).len() / input_stride(c) == padded_dimension(header_width(b)) * padded_dimension(header_height(b))
}

/// Whether `b` starts with one of the two markers of an LZ-compressed
/// stream.
pub open spec fn is_compressed(b: Seq<u8>) -> bool {
    b.len() > 0 && (b[0] == COMPRESSED_DATA_MARKER_LZ10 || b[0] == COMPRESSED_DATA_MARKER_LZ11)
}

/// A result with its reader, or decoder, replaced by its view.
pub open spec fn viewed<T: View<V = ReaderView>>(r: Result<T, Error>) -> Result<ReaderView, Error> {
    match r {
        Ok(t) => Ok(t@),
        Err(e) => Err(e),
    }
}

/// The outcome of decoding the uncompressed buffer `b`. A buffer longer
/// than any allocation can be is refused as a size mismatch.
pub open spec fn decode_outcome(b: Seq<u8>, r: Result<ReaderView, Error>) -> bool {
    if b.len() > isize::MAX {
        r == Err::<ReaderView, Error>(Error::Truncated(Truncation::PayloadSize))
    } else if b.len() < HEADER_SIZE {
        r == Err::<ReaderView, Error>(Error::Truncated(Truncation::HeaderTooShort))
    } else {
        match colour_type_of_code(colour_code(b)) {
            None => r == Err::<ReaderView, Error>(Error::ColourType(colour_code(b))),
            Some(c) => if !payload_fits(b, c) {
                r == Err::<ReaderView, Error>(Error::Truncated(Truncation::PayloadSize))
            } else {
                r == Ok::<ReaderView, Error>(
                    ReaderView {
                        width: header_width(b),
                        height: header_height(b),
                        colour_type: c,
                        pixels: decoded_pixels(c, header_width(b), header_height(b), payload(b)),
                        read_offset: 0,
                    },
                )
            },
        }
    }
}

/// The outcome of decoding the buffer `b`: a buffer that starts with an LZ
/// marker is decompressed first, and a failure of the decompressor is a
/// compression error; any other buffer is decoded as it is. A compressed
/// stream with a back-reference before the start of its output is refused
/// before it reaches the decompressor.
pub open spec fn open_outcome(b: Seq<u8>, r: Result<ReaderView, Error>) -> bool {
    if is_compressed(b) && !lz_references_in_range(b) {
        r is Err && r->Err_0 is Compression && r->Err_0->Compression_0 is Unknown
    } else if is_compressed(b) {
        match lz_decompressed(b) {
            None => r is Err && r->Err_0 is Compression,
            Some(d) => decode_outcome(d, r),
        }
    } else {
        decode_outcome(b, r)
    }
}

/// The result that the LZ decompressor gives for `input`: the decompressed
/// bytes, or `None` where it fails.
pub uninterp spec fn lz_decompressed(input: Seq<u8>) -> Option<Seq<u8>>;

/// Relies on `nintendo_lz::decompress_arr`, which decompresses an LZ10 or
/// LZ11 stream; what it returns depends on `input` alone. Its error is sorted
/// into the three kinds of `NintendoLzError`. The decompressor panics on a
/// back-reference that reaches before the start of its output, which
/// `requires` leaves out.
#[verifier::external_body]
fn decompress(input: &[u8]) -> (r: Result<Vec<u8>, NintendoLzError>)
    requires
        lz_references_in_range(input@),
    ensures
        r is Ok <==> lz_decompressed(input@) is Some,
        r is Ok ==> r->Ok_0@ == lz_decompressed(input@)->0,
{
    nintendo_lz::decompress_arr(input).map_err(|e| {
        if let Some(m) = e.downcast_ref::<InvalidMagicNumberError>() {
            NintendoLzError::InvalidMagicNumber(m.clone())
        } else if let Some(o) = e.downcast_ref::<OutOfRangeError>() {
            NintendoLzError::OutOfRange(o.clone())
        } else {
            NintendoLzError::Unknown(e.to_string())
        }
    })
}

/// Relies on `byteorder`'s `LittleEndian::read_u32`: the first four bytes
/// of `buf` read as a little-endian word.
#[verifier::external_body]
fn read_u32_le(buf: &[u8]) -> (r: u32)
    requires
        buf@.len() >= 4,
    ensures
        r == le_u32(buf@, 0),
{
    byteorder::LittleEndian::read_u32(buf)
}

/// The little-endian word at offset `i` of `b`.
fn read_u32_at(b: &[u8], i: usize) -> (r: u32)
    requires
        i <= 12,
        b@.len() >= HEADER_SIZE,
    ensures
        r == le_u32(b@, i as int),
{
    let word = slice_subrange(b, i, i + 4);
    read_u32_le(word)
}

/// The padded canvas dimension for an image dimension `n`.
fn padded_size(n: u32) -> (r: u64)
    requires
        n >= 1,
    ensures
        r == padded_dimension(n as nat),
        r <= 0x1_0000_0000,
{
    if n <= 0x8000_0000 {
        assert(round_up(n as int, 8) <= 0x8000_0000);
        next_largest_power_of_2(next_multiple_of(TILE_SIZE as u32, n)) as u64
    } else {
        proof {
            assert(0x8000_0000u32 & ((0x8000_0000u32 - 1) as u32) == 0) by (bit_vector);
            lemma_power_of_two_from_bits(0x8000_0000u32);
            assert(is_power_of_two(0x1_0000_0000));
            lemma_next_power_of_two_is(round_up(n as int, 8) as nat, 0x1_0000_0000);
        }
        0x1_0000_0000
    }
}

/// The view of a reader: the image and how much of it has been read.
pub struct ReaderView {
    pub width: nat,
    pub height: nat,
    pub colour_type: JupiterColourType,
    pub pixels: Seq<u8>,
    pub read_offset: nat,
}

/// The decoded image, held in memory, and a cursor for reading its pixels
/// out in chunks.
pub struct JupiterReader {
    width: u32,
    height: u32,
    colour_type: JupiterColourType,
    pixel_buffer: Vec<u8>,
    read_offset: usize,
}

impl View for JupiterReader {
    type V = ReaderView;

    closed spec fn view(&self) -> ReaderView {
        ReaderView {
            width: self.width as nat,
            height: self.height as nat,
            colour_type: self.colour_type,
            pixels: self.pixel_buffer@,
            read_offset: self.read_offset as nat,
        }
    }
}

impl JupiterReader {
    /// Whether the cursor lies within the pixels.
    pub open spec fn wf(&self) -> bool {
        self@.read_offset <= self@.pixels.len()
    }

    /// Decodes a buffer, decompressing it first where it starts with an LZ
    /// marker.
    fn open(bytes: &[u8]) -> (r: Result<JupiterReader, Error>)
        ensures
            open_outcome(bytes@, viewed(r)),
            r is Ok ==> r->Ok_0.wf(),
    {
        if bytes.len() > 0 && (bytes[0] == COMPRESSED_DATA_MARKER_LZ10 || bytes[0]
            == COMPRESSED_DATA_MARKER_LZ11) {
            if !lz_references_checked(bytes) {
                return Err(
                    Error::Compression(
                        NintendoLzError::Unknown("back-reference before the start of the output".to_owned()),
                    ),
                );
            }
            match decompress(bytes) {
                Ok(decompressed) => Self::decode_uncompressed(decompressed.as_slice()),
                Err(e) => Err(Error::Compression(e)),
            }
        } else {
            Self::decode_uncompressed(bytes)
        }
    }

    /// Copies the next pixel bytes into `buffer`, as many as fit and remain,
    /// and moves the cursor past them; returns how many were copied.
    pub fn read(&mut self, buffer: &mut [u8]) -> (r: usize)
        requires
            old(self).wf(),
        ensures
            final(self).wf(),
            r == if old(buffer)@.len() < old(self)@.pixels.len() - old(self)@.read_offset {
                old(buffer)@.len() as int
            } else {
                old(self)@.pixels.len() - old(self)@.read_offset
            },
            final(self)@ == (ReaderView { read_offset: (old(self)@.read_offset + r) as nat, ..old(self)@ }),
            final(buffer)@ == old(self)@.pixels.subrange(
                old(self)@.read_offset as int,
                old(self)@.read_offset + r,
            ) + old(buffer)@.subrange(r as int, old(buffer)@.len() as int),
    {
        let total = self.pixel_buffer.len();
        let mut readable_length = total - self.read_offset;
        if buffer.len() < readable_length {
            readable_length = buffer.len();
        }
        let ghost start = buffer@;
        let mut i: usize = 0;
        while i < readable_length
            invariant
                self.wf(),
                total == self.pixel_buffer@.len(),
                readable_length <= buffer@.len(),
                self.read_offset + readable_length <= self.pixel_buffer@.len(),
                i <= readable_length,
                buffer@.len() == start.len(),
                forall|j: int| 0 <= j < i ==> #[trigger] buffer@[j] == self.pixel_buffer@[self.read_offset + j],
                forall|j: int| i <= j < buffer@.len() ==> #[trigger] buffer@[j] == start[j],
            decreases readable_length - i,
        {
            buffer[i] = self.pixel_buffer[self.read_offset + i];
            i += 1;
        }
        assert(buffer@ =~= self.pixel_buffer@.subrange(
            self.read_offset as int,
            self.read_offset + readable_length,
        ) + start.subrange(readable_length as int, start.len() as int));
        self.read_offset = self.read_offset + readable_length;
        readable_length
    }

    /// Decodes an uncompressed buffer: parses and checks the header, then
    /// converts the payload.
    pub fn decode_uncompressed(bytes: &[u8]) -> (r: Result<JupiterReader, Error>)
        ensures
            decode_outcome(bytes@, viewed(r)),
            r is Ok ==> r->Ok_0.wf(),
    {
        if bytes.len() > isize::MAX as usize {
            return Err(Error::Truncated(Truncation::PayloadSize));
        }
        if bytes.len() < HEADER_SIZE {
            return Err(Error::Truncated(Truncation::HeaderTooShort));
        }
        let header_length = read_u32_at(bytes, 0);
        let colour_format = match JupiterColourType::try_from(read_u32_at(bytes, 4)) {
            Ok(c) => c,
            Err(e) => {
                return Err(e);
            },
        };
        let width = read_u32_at(bytes, 8);
        let height = read_u32_at(bytes, 12);
        if width == 0 || height == 0 || header_length as usize > bytes.len() {
            return Err(Error::Truncated(Truncation::PayloadSize));
        }
        let padded_width = padded_size(width);
        let padded_height = padded_size(height);
        let payload_bytes = slice_subrange(bytes, header_length as usize, bytes.len());
        let payload_pixels = payload_bytes.len() / colour_format.bytes_per_pixel();
        assert(padded_width * padded_height <= 0x1_0000_0000 * 0x1_0000_0000) by (nonlinear_arith)
            requires
                padded_width <= 0x1_0000_0000,
                padded_height <= 0x1_0000_0000,
        ;
        if padded_width as u128 * padded_height as u128 != payload_pixels as u128 {
            return Err(Error::Truncated(Truncation::PayloadSize));
        }
        proof {
            lemma_padded_dimension(width as nat);
            lemma_padded_dimension(height as nat);
            assert(padded_width <= padded_width * padded_height) by (nonlinear_arith)
                requires
                    padded_height >= 1,
            ;
            assert(padded_height <= padded_width * padded_height) by (nonlinear_arith)
                requires
                    padded_width >= 1,
            ;
        }
        let pixel_buffer = convert_tiles(
            payload_bytes,
            colour_format,
            width,
            height,
            padded_width as usize,
            padded_height as usize,
        );
        Ok(JupiterReader { width, height, colour_type: colour_format, pixel_buffer, read_offset: 0 })
    }
}


/// The decoder of Jupiter Texture images. It decodes the whole image when it
/// is made, since the format's compression and tiling do not lend
/// themselves to streaming.
pub struct JupiterDecoder {
    reader: JupiterReader,
}

impl View for JupiterDecoder {
    type V = ReaderView;

    closed spec fn view(&self) -> ReaderView {
        self.reader@
    }
}

impl JupiterDecoder {
    /// Whether the reader's cursor lies within the pixels.
    pub open spec fn wf(&self) -> bool {
        self@.read_offset <= self@.pixels.len()
    }

    /// Decodes the contents of `bytes`, decompressing them first where they
    /// start with an LZ marker.
    pub fn decode(bytes: &[u8]) -> (r: Result<JupiterDecoder, Error>)
        ensures
            open_outcome(bytes@, viewed(r)),
            r is Ok ==> r->Ok_0.wf(),
    {
        match JupiterReader::open(bytes) {
            Ok(reader) => Ok(JupiterDecoder { reader }),
            Err(e) => Err(e),
        }
    }

    /// Decodes the contents of `bytes`, as `decode` does.
    pub fn new(bytes: &[u8]) -> (r: Result<JupiterDecoder, Error>)
        ensures
            open_outcome(bytes@, viewed(r)),
            r is Ok ==> r->Ok_0.wf(),
    {
        Self::decode(bytes)
    }

    /// The width and height of the image.
    pub fn dimensions(&self) -> (r: (u32, u32))
        ensures
            r.0 == self@.width,
            r.1 == self@.height,
    {
        (self.reader.width, self.reader.height)
    }

    /// The colour format in which the image was stored.
    pub fn original_color_type(&self) -> (r: JupiterColourType)
        ensures
            r == self@.colour_type,
    {
        self.reader.colour_type
    }

    /// The number of bytes of the decoded pixels.
    pub fn total_bytes(&self) -> (r: u64)
        ensures
            r == self@.pixels.len(),
    {
        self.reader.pixel_buffer.len() as u64
    }

    /// The reader of the decoded pixels.
    pub fn into_reader(self) -> (r: JupiterReader)
        ensures
            r@ == self@,
    {
        self.reader
    }
}


/// A padded canvas dimension: the dimension rounded up to whole tiles, then
/// up to a power of two.
pub open spec fn padded_dimension(n: nat) -> nat {
    next_power_of_two(round_up(n as int, 8) as nat)
}

/// The stored pixel `s` of `payload`, of format `c`.
pub open spec fn stored_pixel(c: JupiterColourType, payload: Seq<u8>, s: int) -> Seq<u8> {
    payload.subrange(s * input_stride(c), s * input_stride(c) + input_stride(c))
}

/// The decoded pixels, row-major, of a `width` by `height` image of format
/// `c` whose stored pixels are `payload`: the pixel at `(x, y)` is the
/// converted stored pixel of the canvas position `(x, y)`.
pub open spec fn decoded_pixels(c: JupiterColourType, width: nat, height: nat, payload: Seq<u8>) -> Seq<u8> {
    let os = output_stride(c) as int;
    Seq::new(
        width * height * os as nat,
        |k: int|
            {
                let p = k / os;
                let s = source_index(padded_dimension(width), (p % width as int) as nat, (p / width as int) as nat);
                converted_pixel(c, stored_pixel(c, payload, s as int))[k % os]
            },
    )
}

/// Byte `k` of the decoded pixels while only the stored pixels below `done`
/// have been converted; the others are still zero.
spec fn decoded_byte(c: JupiterColourType, width: nat, payload: Seq<u8>, k: int, done: nat) -> u8 {
    let os = output_stride(c) as int;
    let p = k / os;
    let s = source_index(padded_dimension(width), (p % width as int) as nat, (p / width as int) as nat) as int;
    if s < done {
        converted_pixel(c, stored_pixel(c, payload, s))[k % os]
    } else {
        0
    }
}

/// Stored pixels that fall on the padding of the canvas do not reach the
/// decoded image: two payloads that agree on the stored pixel of every
/// position inside the image decode to the same pixels.
pub proof fn lemma_padding_ignored(c: JupiterColourType, width: nat, height: nat, a: Seq<u8>, b: Seq<u8>)
    requires
        forall|x: nat, y: nat|
            x < width && y < height ==> #[trigger] stored_pixel(c, a, source_index(padded_dimension(width), x, y) as int)
                == stored_pixel(c, b, source_index(padded_dimension(width), x, y) as int),
    ensures
        decoded_pixels(c, width, height, a) == decoded_pixels(c, width, height, b),
{
    let os = output_stride(c) as int;
    let da = decoded_pixels(c, width, height, a);
    let db = decoded_pixels(c, width, height, b);
    assert forall|k: int| 0 <= k < da.len() implies da[k] == db[k] by {
        lemma_slot_pixel(k, width as int, height as int, os);
        let p = k / os;
        let w = width as int;
        let x = (p % w) as nat;
        let y = (p / w) as nat;
        assert(x < width && y < height) by (nonlinear_arith)
            requires
                0 <= p < w * height,
                w == width,
                x == p % w,
                y == p / w,
        ;
        let s = source_index(padded_dimension(width), x, y) as int;
        assert(stored_pixel(c, a, s) == stored_pixel(c, b, s));
    }
    assert(da =~= db);
}

proof fn lemma_stride_slot(k: int, q: int, os: int)
    requires
        os > 0,
        k >= 0,
        q >= 0,
    ensures
        (q * os <= k < q * os + os) <==> k / os == q,
        k / os == q ==> k - q * os == k % os,
{
    assert((q * os <= k < q * os + os) ==> k / os == q) by (nonlinear_arith)
        requires
            os > 0,
            k >= 0,
            q >= 0,
    ;
    assert(k / os == q ==> (q * os <= k < q * os + os) && k - q * os == k % os) by (nonlinear_arith)
        requires
            os > 0,
            k >= 0,
            q >= 0,
    ;
}

proof fn lemma_slot_pixel(k: int, w: int, h: int, os: int)
    requires
        os > 0,
        0 <= k < w * h * os,
    ensures
        0 <= k / os < w * h,
{
    assert(0 <= k / os < w * h) by (nonlinear_arith)
        requires
            os > 0,
            0 <= k < w * h * os,
    ;
}

proof fn lemma_row_major(p: int, x: int, y: int, w: int)
    requires
        w > 0,
        0 <= x < w,
        y >= 0,
        p == y * w + x,
    ensures
        p % w == x,
        p / w == y,
{
    assert(p % w == x && p / w == y) by (nonlinear_arith)
        requires
            w > 0,
            0 <= x < w,
            y >= 0,
            p == y * w + x,
    ;
}

/// The decoded pixel `p` of a `width` by `height` image comes from the
/// stored pixel `n` exactly when `n` lies at the position of `p`.
proof fn lemma_pixel_source(width: nat, height: nat, tiles_wide: nat, tiles_high: nat, p: int, n: nat)
    requires
        tiles_wide >= 1,
        1 <= width <= 8 * tiles_wide,
        height <= 8 * tiles_high,
        0 <= p < width * height,
        n < 64 * tiles_wide * tiles_high,
    ensures
        source_index(8 * tiles_wide, (p % width as int) as nat, (p / width as int) as nat) < 64 * tiles_wide * tiles_high,
        source_index(8 * tiles_wide, (p % width as int) as nat, (p / width as int) as nat) == n
            <==> (pixel_x(8 * tiles_wide, n) < width && pixel_y(8 * tiles_wide, n) < height && p
            == pixel_y(8 * tiles_wide, n) * width + pixel_x(8 * tiles_wide, n)),
{
    let w = width as int;
    let x = (p % w) as nat;
    let y = (p / w) as nat;
    assert(x < width && p == y * w + x) by (nonlinear_arith)
        requires
            w == width,
            p >= 0,
            w > 0,
            x == p % w,
            y == p / w,
    ;
    assert(y < height) by (nonlinear_arith)
        requires
            w == width,
            0 <= p < w * height,
            w > 0,
            y == p / w,
    ;
    lemma_position_to_index(tiles_wide, tiles_high, x, y);
    lemma_index_to_position(tiles_wide, tiles_high, n);
    let px = pixel_x(8 * tiles_wide, n);
    let py = pixel_y(8 * tiles_wide, n);
    if px < width && py < height && p == py * width + px {
        lemma_row_major(p, px as int, py as int, w);
    }
}

/// Converts the stored pixels of `payload`, tile by tile, into the row-major
/// pixels of a `width` by `height` image; stored pixels that fall outside
/// the image, on the padding of the canvas, are dropped.
#[verifier::rlimit(60)]
fn convert_tiles(
    payload: &[u8],
    colour_format: JupiterColourType,
    width: u32,
    height: u32,
    padded_width: usize,
    padded_height: usize,
) -> (r: Vec<u8>)
    requires
        width >= 1,
        height >= 1,
        padded_width == padded_dimension(width as nat),
        padded_height == padded_dimension(height as nat),
        payload@.len() / input_stride(colour_format) == padded_width * padded_height,
        payload@.len() <= isize::MAX,
    ensures
        r@ == decoded_pixels(colour_format, width as nat, height as nat, payload@),
{
    let is = colour_format.bytes_per_pixel();
    let os = colour_format.output_bytes_per_pixel();
    let w = width as usize;
    let h = height as usize;
    let ghost pw = padded_width as nat;
    let ghost ph = padded_height as nat;
    let ghost len = payload@.len() as int;
    let ghost pa = pw * ph;
    proof {
        lemma_padded_dimension(width as nat);
        lemma_padded_dimension(height as nat);
        assert(pa * is <= len) by (nonlinear_arith)
            requires
                len / (is as int) == pa,
                is > 0,
                len >= 0,
        ;
        assert(w * h <= pa) by (nonlinear_arith)
            requires
                w <= pw,
                h <= ph,
                pa == pw * ph,
        ;
        assert(os <= 2 * is);
        assert(w * h * os <= 2 * (pa * is)) by (nonlinear_arith)
            requires
                w * h <= pa,
                os <= 2 * is,
                is > 0,
                os > 0,
        ;
    }
    let tiles_per_row = padded_width / TILE_SIZE;
    let ghost tiles_high = ph / 8;
    assert(pw == 8 * tiles_per_row && ph == 8 * tiles_high);
    let pixel_count = padded_width * padded_height;
    let out_len = w * h * os;
    let mut pixel_buffer: Vec<u8> = vec![0u8; out_len];
    assert(64 * tiles_per_row * tiles_high == pa) by (nonlinear_arith)
        requires
            pw == 8 * tiles_per_row,
            ph == 8 * tiles_high,
            pa == pw * ph,
    ;
    let mut n: usize = 0;
    while n < pixel_count
        invariant
            pixel_count == pa,
            pa * is <= len,
            len == payload@.len(),
            len <= isize::MAX,
            out_len == w * h * os,
            is == input_stride(colour_format),
            os == output_stride(colour_format),
            w == width,
            h == height,
            w <= pw,
            h <= ph,
            pw == padded_dimension(width as nat),
            ph == padded_height,
            pw == 8 * tiles_per_row,
            ph == 8 * tiles_high,
            64 * tiles_per_row * tiles_high == pa,
            tiles_per_row >= 1,
            n <= pixel_count,
            pixel_buffer@.len() == out_len,
            forall|k: int|
                0 <= k < out_len ==> #[trigger] pixel_buffer@[k] == decoded_byte(colour_format, width as nat, payload@, k, n as nat),
        decreases pixel_count - n,
    {
        let tile_index = n / TILE_AREA;
        let tile_x = tile_index % tiles_per_row;
        let tile_y = tile_index / tiles_per_row;
        let (local_x, local_y) = decimal_ordinate_to_x_y((n % TILE_AREA) as u32);
        proof {
            lemma_index_to_position(tiles_per_row as nat, tiles_high, n as nat);
        }
        assert(tile_x * 8 + local_x == pixel_x(pw, n as nat));
        assert(tile_y * 8 + local_y == pixel_y(pw, n as nat));
        let pixel_x_n = tile_x * TILE_SIZE + local_x as usize;
        let pixel_y_n = tile_y * TILE_SIZE + local_y as usize;
        if pixel_x_n < w && pixel_y_n < h {
            let ghost q = pixel_y_n * w + pixel_x_n;
            assert((pixel_y_n * w + pixel_x_n) * os + os <= w * h * os) by (nonlinear_arith)
                requires
                    pixel_x_n < w,
                    pixel_y_n < h,
                    os > 0,
            ;
            let out_index = (pixel_y_n * w + pixel_x_n) * os;
            assert(n * is + is <= pa * is) by (nonlinear_arith)
                requires
                    n < pa,
                    is > 0,
            ;
            let chunk = slice_subrange(payload, n * is, n * is + is);
            copy_and_convert_pixel_data(chunk, &mut pixel_buffer, out_index, colour_format);
            proof {
                assert forall|k: int| 0 <= k < out_len implies #[trigger] pixel_buffer@[k] == decoded_byte(colour_format, width as nat, payload@, k, (n + 1) as nat) by {
                    lemma_stride_slot(k, q, os as int);
                    lemma_slot_pixel(k, w as int, h as int, os as int);
                    lemma_pixel_source(w as nat, h as nat, tiles_per_row as nat, tiles_high, k / (os as int), n as nat);
                }
            }
        } else {
            proof {
                assert forall|k: int| 0 <= k < out_len implies #[trigger] pixel_buffer@[k] == decoded_byte(colour_format, width as nat, payload@, k, (n + 1) as nat) by {
                    lemma_slot_pixel(k, w as int, h as int, os as int);
                    lemma_pixel_source(w as nat, h as nat, tiles_per_row as nat, tiles_high, k / (os as int), n as nat);
                }
            }
        }
        n += 1;
    }
    proof {
        assert forall|k: int| 0 <= k < out_len implies #[trigger] pixel_buffer@[k] == decoded_pixels(colour_format, width as nat, height as nat, payload@)[k] by {
            lemma_slot_pixel(k, w as int, h as int, os as int);
            lemma_pixel_source(w as nat, h as nat, tiles_per_row as nat, tiles_high, k / (os as int), 0);
        }
        assert(pixel_buffer@ =~= decoded_pixels(colour_format, width as nat, height as nat, payload@));
    }
    pixel_buffer
}

} // verus!

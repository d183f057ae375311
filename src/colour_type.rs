//! The colour formats of Jupiter Texture images and the conversion of one
//! pixel of each to 8-bit channels.
use vstd::prelude::*;

use byteorder::ByteOrder;

use crate::error::Error;

verus! {

/// A colour format of the pixel payload, as stored on disk.
#[derive(Clone, Copy, Debug, PartialEq, Eq, Structural)]
#[non_exhaustive]
pub enum JupiterColourType {
    /// 8 bits per pixel, luminance-only (greyscale)
    L8,
    /// 16 bits per pixel, RGBA (4 bits per channel)
    Rgba4444,
    /// 16 bits per pixel, RGBA (5 bits per colour channel, 1 bit alpha)
    Rgba5551,
    /// 24 bits per pixel, RGB (8 bits per channel)
    Rgb888,
    /// 32 bits per pixel, RGBA (8 bits per channel)
    Rgba8888,
}

/// The bytes that one stored pixel of format `c` takes.
pub open spec fn input_stride(c: JupiterColourType) -> nat {
    match c {
        JupiterColourType::L8 => 1,
        JupiterColourType::Rgba4444 => 2,
        JupiterColourType::Rgba5551 => 2,
        JupiterColourType::Rgb888 => 3,
        JupiterColourType::Rgba8888 => 4,
    }
}

/// The bytes that one decoded pixel of format `c` takes: luminance stays one
/// channel, `Rgb888` stays three, the others widen to four.
pub open spec fn output_stride(c: JupiterColourType) -> nat {
    match c {
        JupiterColourType::L8 => 1,
        JupiterColourType::Rgb888 => 3,
        _ => 4,
    }
}

/// The colour format of a raw header code. Code 6 is taken to be `Rgba5551`
/// as code 5 is; no sample has confirmed it.
pub open spec fn colour_type_of_code(code: u32) -> Option<JupiterColourType> {
    if code == 0 {
        Some(JupiterColourType::L8)
    } else if code == 2 {
        Some(JupiterColourType::Rgba8888)
    } else if code == 3 {
        Some(JupiterColourType::Rgb888)
    } else if code == 4 {
        Some(JupiterColourType::Rgba4444)
    } else if code == 5 || code == 6 {
        Some(JupiterColourType::Rgba5551)
    } else {
        None
    }
}

/// A 4-bit channel value scaled to 8 bits.
pub open spec fn widen_4_bit(v: int) -> int {
    v * 17
}

/// A 5-bit channel value scaled to 8 bits, rounded to the nearest integer.
pub open spec fn widen_5_bit(v: int) -> int {
    (v * 255 + 15) / 31
}

/// The little-endian 16-bit word of two bytes.
pub open spec fn le_u16(b0: u8, b1: u8) -> int {
    b0 + 256 * b1
}

/// The decoded bytes of one stored pixel `p` of format `c`.
pub open spec fn converted_pixel(c: JupiterColourType, p: Seq<u8>) -> Seq<u8> {
    match c {
        JupiterColourType::L8 => seq![p[0]],
        JupiterColourType::Rgba4444 => seq![
            widen_4_bit(p[1] as int / 16) as u8,
            widen_4_bit(p[1] as int % 16) as u8,
            widen_4_bit(p[0] as int / 16) as u8,
            widen_4_bit(p[0] as int % 16) as u8,
        ],
        JupiterColourType::Rgba5551 => {
            let w = le_u16(p[0], p[1]);
            seq![
                widen_5_bit(w / 2048) as u8,
                widen_5_bit((w / 64) % 32) as u8,
                widen_5_bit((w / 2) % 32) as u8,
                if w % 2 == 1 { 0xFFu8 } else { 0u8 },
            ]
        },
        JupiterColourType::Rgb888 => seq![p[2], p[1], p[0]],
        JupiterColourType::Rgba8888 => seq![p[3], p[2], p[1], p[0]],
    }
}

impl JupiterColourType {
    /// The bytes that one stored pixel of this format takes.
    pub fn bytes_per_pixel(self) -> (r: usize)
        ensures
            r == input_stride(self),
    {
        match self {
            JupiterColourType::L8 => 1,
            JupiterColourType::Rgba4444 | JupiterColourType::Rgba5551 => 2,
            JupiterColourType::Rgb888 => 3,
            JupiterColourType::Rgba8888 => 4,
        }
    }

    /// The bits that one stored pixel of this format takes.
    pub fn bits_per_pixel(self) -> (r: usize)
        ensures
            r == 8 * input_stride(self),
    {
        self.bytes_per_pixel() * 8
    }

    /// The bytes that one decoded pixel of this format takes.
    pub fn output_bytes_per_pixel(self) -> (r: usize)
        ensures
            r == output_stride(self),
    {
        match self {
            JupiterColourType::L8 => 1,
            JupiterColourType::Rgb888 => 3,
            _ => 4,
        }
    }
}

impl TryFrom<u32> for JupiterColourType {
    type Error = Error;

    fn try_from(raw_format: u32) -> (r: Result<Self, Self::Error>) {
        match raw_format {
            0 => Ok(JupiterColourType::L8),
            2 => Ok(JupiterColourType::Rgba8888),
            3 => Ok(JupiterColourType::Rgb888),
            4 => Ok(JupiterColourType::Rgba4444),
            5 | 6 => Ok(JupiterColourType::Rgba5551),
            _ => Err(Error::ColourType(raw_format)),
        }
    }
}

impl vstd::std_specs::convert::TryFromSpecImpl<u32> for JupiterColourType {
    open spec fn obeys_try_from_spec() -> bool {
        true
    }

    open spec fn try_from_spec(raw_format: u32) -> Result<Self, Error> {
        match colour_type_of_code(raw_format) {
            Some(c) => Ok(c),
            None => Err(Error::ColourType(raw_format)),
        }
    }
}

/// Relies on `byteorder`'s `LittleEndian::read_u16`: the first two bytes of
/// `buf` read as a little-endian word.
#[verifier::external_body]
fn read_u16_le(buf: &[u8]) -> (r: u16)
    requires
        buf@.len() >= 2,
    ensures
        r == le_u16(buf@[0], buf@[1]),
{
    byteorder::LittleEndian::read_u16(buf)
}

/// The 4-bit to 8-bit widening table.
fn lookup_table_4_bit_to_8_bit() -> (t: [u8; 16])
    ensures
        forall|i: int| 0 <= i < 16 ==> t@[i] == widen_4_bit(i),
{
    let t: [u8; 16] = [0x00, 0x11, 0x22, 0x33, 0x44, 0x55, 0x66, 0x77, 0x88, 0x99, 0xAA, 0xBB, 0xCC, 0xDD, 0xEE, 0xFF];
    assert(forall|i: int| 0 <= i < 16 ==> t@[i] == widen_4_bit(i));
    t
}

/// The 5-bit to 8-bit widening table.
fn lookup_table_5_bit_to_8_bit() -> (t: [u8; 32])
    ensures
        forall|i: int| 0 <= i < 32 ==> t@[i] == widen_5_bit(i),
{
    let t: [u8; 32] = [0x00, 0x08, 0x10, 0x19, 0x21, 0x29, 0x31, 0x3A, 0x42, 0x4A, 0x52, 0x5A, 0x63, 0x6B, 0x73, 0x7B, 0x84, 0x8C, 0x94, 0x9C, 0xA5, 0xAD, 0xB5, 0xBD, 0xC5, 0xCE, 0xD6, 0xDE, 0xE6, 0xEF, 0xF7, 0xFF];
    assert(forall|i: int| 0 <= i < 32 ==> t@[i] == widen_5_bit(i));
    t
}

/// The 4-bit widening maps 0 to 0x00 and 15 to 0xFF, in steps of 17.
pub proof fn lemma_widen_4_bit()
    ensures
        widen_4_bit(0) == 0x00,
        widen_4_bit(15) == 0xFF,
        forall|v: int| 0 <= v < 15 ==> #[trigger] widen_4_bit(v + 1) == widen_4_bit(v) + 17,
{
}

/// The 5-bit widening maps 0 to 0x00 and 31 to 0xFF, and is strictly
/// increasing.
pub proof fn lemma_widen_5_bit()
    ensures
        widen_5_bit(0) == 0x00,
        widen_5_bit(31) == 0xFF,
        forall|v: int| 0 <= v < 31 ==> widen_5_bit(v) < #[trigger] widen_5_bit(v + 1),
{
    assert forall|v: int| 0 <= v < 31 implies widen_5_bit(v) < #[trigger] widen_5_bit(v + 1) by {
        assert((v * 255 + 15) / 31 < ((v + 1) * 255 + 15) / 31) by (nonlinear_arith)
            requires
                0 <= v < 31,
        ;
    }
}

/// The 4-bit field of a stored `Rgba4444` pixel `p` that feeds decoded
/// channel `i` (red, green, blue, alpha).
pub open spec fn rgba4444_field(p: Seq<u8>, i: int) -> int {
    if i == 0 {
        p[1] as int / 16
    } else if i == 1 {
        p[1] as int % 16
    } else if i == 2 {
        p[0] as int / 16
    } else {
        p[0] as int % 16
    }
}

/// The 5-bit field of a stored `Rgba5551` pixel `p` that feeds decoded
/// colour channel `i` (red, green, blue).
pub open spec fn rgba5551_field(p: Seq<u8>, i: int) -> int {
    let w = le_u16(p[0], p[1]);
    if i == 0 {
        w / 2048
    } else if i == 1 {
        (w / 64) % 32
    } else {
        (w / 2) % 32
    }
}

/// Of two stored `Rgba4444` pixels, the one with the larger 4-bit field
/// gives the larger decoded channel, and equal fields give equal channels.
pub proof fn lemma_rgba4444_monotone(a: Seq<u8>, b: Seq<u8>, i: int)
    requires
        a.len() == 2,
        b.len() == 2,
        0 <= i < 4,
    ensures
        rgba4444_field(a, i) < rgba4444_field(b, i) ==> converted_pixel(JupiterColourType::Rgba4444, a)[i]
            < converted_pixel(JupiterColourType::Rgba4444, b)[i],
        rgba4444_field(a, i) == rgba4444_field(b, i) ==> converted_pixel(JupiterColourType::Rgba4444, a)[i]
            == converted_pixel(JupiterColourType::Rgba4444, b)[i],
{
    let va = rgba4444_field(a, i);
    let vb = rgba4444_field(b, i);
    assert(0 <= va < 16 && 0 <= vb < 16);
    assert(converted_pixel(JupiterColourType::Rgba4444, a)[i] == va * 17);
    assert(converted_pixel(JupiterColourType::Rgba4444, b)[i] == vb * 17);
}

/// Of two stored `Rgba5551` pixels, the one with the larger 5-bit field
/// gives the larger decoded colour channel, and equal fields give equal
/// channels.
pub proof fn lemma_rgba5551_monotone(a: Seq<u8>, b: Seq<u8>, i: int)
    requires
        a.len() == 2,
        b.len() == 2,
        0 <= i < 3,
    ensures
        rgba5551_field(a, i) < rgba5551_field(b, i) ==> converted_pixel(JupiterColourType::Rgba5551, a)[i]
            < converted_pixel(JupiterColourType::Rgba5551, b)[i],
        rgba5551_field(a, i) == rgba5551_field(b, i) ==> converted_pixel(JupiterColourType::Rgba5551, a)[i]
            == converted_pixel(JupiterColourType::Rgba5551, b)[i],
{
    let va = rgba5551_field(a, i);
    let vb = rgba5551_field(b, i);
    assert(0 <= va < 32 && 0 <= vb < 32);
    assert(0 <= widen_5_bit(va) <= 255 && 0 <= widen_5_bit(vb) <= 255) by (nonlinear_arith)
        requires
            0 <= va < 32,
            0 <= vb < 32,
    ;
    assert(converted_pixel(JupiterColourType::Rgba5551, a)[i] == widen_5_bit(va));
    assert(converted_pixel(JupiterColourType::Rgba5551, b)[i] == widen_5_bit(vb));
    if va < vb {
        assert((va * 255 + 15) / 31 < (vb * 255 + 15) / 31) by (nonlinear_arith)
            requires
                0 <= va < vb,
        ;
    }
}

/// Writes the decoded bytes of the stored pixel `input_chunk`, of format
/// `input_colour_type`, into `output` from `offset` on.
pub fn copy_and_convert_pixel_data(
    input_chunk: &[u8],
    output: &mut Vec<u8>,
    offset: usize,
    input_colour_type: JupiterColourType,
)
    requires
        input_chunk@.len() == input_stride(input_colour_type),
        offset + output_stride(input_colour_type) <= old(output)@.len(),
    ensures
        final(output)@.len() == old(output)@.len(),
        forall|k: int|
            0 <= k < old(output)@.len() ==> #[trigger] final(output)@[k] == if offset <= k < offset
                + output_stride(input_colour_type) {
                converted_pixel(input_colour_type, input_chunk@)[k - offset]
            } else {
                old(output)@[k]
            },
{
    let len = output.len();
    assert(offset + output_stride(input_colour_type) <= len);
    match input_colour_type {
        JupiterColourType::L8 => {
            output[offset] = input_chunk[0];
        },
        JupiterColourType::Rgba4444 => {
            let table = lookup_table_4_bit_to_8_bit();
            let b0: u8 = input_chunk[0];
            let b1: u8 = input_chunk[1];
            assert((b1 >> 4u8) & 0x0Fu8 == b1 / 16 && b1 & 0x0Fu8 == b1 % 16) by (bit_vector);
            assert((b0 >> 4u8) & 0x0Fu8 == b0 / 16 && b0 & 0x0Fu8 == b0 % 16) by (bit_vector);
            output[offset] = table[((b1 >> 4) & 0x0F) as usize];
            output[offset + 1] = table[(b1 & 0x0F) as usize];
            output[offset + 2] = table[((b0 >> 4) & 0x0F) as usize];
            output[offset + 3] = table[(b0 & 0x0F) as usize];
        },
        JupiterColourType::Rgba5551 => {
            let table = lookup_table_5_bit_to_8_bit();
            let w: u16 = read_u16_le(input_chunk);
            assert((w & 0xF800u16) >> 11u16 == w / 2048 && (w & 0x07C0u16) >> 6u16 == (w / 64)
                % 32 && (w & 0x003Eu16) >> 1u16 == (w / 2) % 32 && w & 1u16 == w % 2)
                by (bit_vector);
            output[offset] = table[((w & 0xF800) >> 11) as usize];
            output[offset + 1] = table[((w & 0x07C0) >> 6) as usize];
            output[offset + 2] = table[((w & 0x003E) >> 1) as usize];
            output[offset + 3] = (w & 1) as u8 * 0xFF;
        },
        JupiterColourType::Rgb888 => {
            output[offset] = input_chunk[2];
            output[offset + 1] = input_chunk[1];
            output[offset + 2] = input_chunk[0];
        },
        JupiterColourType::Rgba8888 => {
            output[offset] = input_chunk[3];
            output[offset + 1] = input_chunk[2];
            output[offset + 2] = input_chunk[1];
            output[offset + 3] = input_chunk[0];
        },
    }
}

} // verus!

use jtex::colour_type::copy_and_convert_pixel_data;
use jtex::lz::lz_references_checked;
use jtex::{
    decimal_ordinate_to_x_y, next_largest_power_of_2, next_multiple_of, Error, JupiterColourType,
    JupiterDecoder, JupiterReader, NintendoLzError, Truncation,
};

fn header(header_length: u32, code: u32, width: u32, height: u32) -> Vec<u8> {
    let mut b = Vec::new();
    for v in [header_length, code, width, height] {
        b.extend_from_slice(&v.to_le_bytes());
    }
    while (b.len() as u32) < header_length {
        b.push(0);
    }
    b
}

fn morton(x: u32, y: u32) -> u32 {
    let mut n = 0;
    for bit in 0..16 {
        n |= ((x >> bit) & 1) << (2 * bit);
        n |= ((y >> bit) & 1) << (2 * bit + 1);
    }
    n
}

/// An LZ10 stream made of literal bytes only.
fn lz10_literal(data: &[u8]) -> Vec<u8> {
    let len = data.len() as u32;
    let mut out = vec![0x10, len as u8, (len >> 8) as u8, (len >> 16) as u8];
    for block in data.chunks(8) {
        out.push(0);
        out.extend_from_slice(block);
    }
    out
}

fn read_all(decoder: JupiterDecoder) -> Vec<u8> {
    let total = decoder.total_bytes() as usize;
    let mut reader = decoder.into_reader();
    let mut out = vec![0u8; total];
    assert_eq!(reader.read(&mut out), total);
    out
}

#[test]
fn padded_dimension_is_power_of_two_multiple_of_eight() {
    for n in 1..=2000u32 {
        let p = next_largest_power_of_2(next_multiple_of(8, n));
        assert!(p >= n);
        assert!(p.is_power_of_two());
        assert_eq!(p % 8, 0);
    }
    assert_eq!(next_largest_power_of_2(next_multiple_of(8, 10)), 16);
    assert_eq!(next_largest_power_of_2(next_multiple_of(8, 1)), 8);
    assert_eq!(next_largest_power_of_2(next_multiple_of(8, 65)), 128);
    assert_eq!(next_largest_power_of_2(0x8000_0000), 0x8000_0000);
    assert_eq!(next_largest_power_of_2(0x4000_0001), 0x8000_0000);
}

#[test]
fn next_multiple_of_rounds_up() {
    assert_eq!(next_multiple_of(8, 0), 0);
    assert_eq!(next_multiple_of(8, 8), 8);
    assert_eq!(next_multiple_of(8, 9), 16);
    assert_eq!(next_multiple_of(3, 7), 9);
}

#[test]
fn morton_round_trip() {
    for x in 0..256u32 {
        for y in 0..256u32 {
            assert_eq!(decimal_ordinate_to_x_y(morton(x, y)), (x, y));
        }
    }
    assert_eq!(decimal_ordinate_to_x_y(1), (1, 0));
    assert_eq!(decimal_ordinate_to_x_y(2), (0, 1));
    assert_eq!(decimal_ordinate_to_x_y(3), (1, 1));
    assert_eq!(decimal_ordinate_to_x_y(4), (2, 0));
    assert_eq!(decimal_ordinate_to_x_y(63), (7, 7));
    assert_eq!(decimal_ordinate_to_x_y(u32::MAX), (0xFFFF, 0xFFFF));
}

#[test]
fn four_bit_widening() {
    // byte 0: blue in the high nibble, alpha in the low; byte 1: red, green
    let mut out = vec![0u8; 4];
    copy_and_convert_pixel_data(&[0x0F, 0xF0], &mut out, 0, JupiterColourType::Rgba4444);
    assert_eq!(out, vec![0xFF, 0x00, 0x00, 0xFF]);
    for v in 0..16u8 {
        let mut out = vec![0u8; 4];
        copy_and_convert_pixel_data(&[v, v << 4], &mut out, 0, JupiterColourType::Rgba4444);
        assert_eq!(out, vec![v * 17, 0, 0, v * 17]);
    }
    let mut out = vec![9u8; 6];
    copy_and_convert_pixel_data(&[0x12, 0x34], &mut out, 1, JupiterColourType::Rgba4444);
    assert_eq!(out, vec![9, 0x33, 0x44, 0x11, 0x22, 9]);
}

#[test]
fn five_bit_widening() {
    let expected: [u8; 32] = [
        0x00, 0x08, 0x10, 0x19, 0x21, 0x29, 0x31, 0x3A, 0x42, 0x4A, 0x52, 0x5A, 0x63, 0x6B, 0x73,
        0x7B, 0x84, 0x8C, 0x94, 0x9C, 0xA5, 0xAD, 0xB5, 0xBD, 0xC5, 0xCE, 0xD6, 0xDE, 0xE6, 0xEF,
        0xF7, 0xFF,
    ];
    for v in 0..32u16 {
        let red = (v << 11).to_le_bytes();
        let mut out = vec![0u8; 4];
        copy_and_convert_pixel_data(&red, &mut out, 0, JupiterColourType::Rgba5551);
        assert_eq!(out, vec![expected[v as usize], 0, 0, 0]);
        let green_blue = ((v << 6) | (v << 1) | 1).to_le_bytes();
        copy_and_convert_pixel_data(&green_blue, &mut out, 0, JupiterColourType::Rgba5551);
        assert_eq!(out, vec![0, expected[v as usize], expected[v as usize], 0xFF]);
    }
    assert_eq!(expected[0], 0x00);
    assert_eq!(expected[31], 0xFF);
    for w in expected.windows(2) {
        assert!(w[0] < w[1]);
    }
    let mut out = vec![0u8; 4];
    copy_and_convert_pixel_data(&[0x43, 0x08], &mut out, 0, JupiterColourType::Rgba5551);
    assert_eq!(out, vec![0x08, 0x08, 0x08, 0xFF]);
}

#[test]
fn byte_swapped_formats() {
    let mut out = vec![0u8; 3];
    copy_and_convert_pixel_data(&[1, 2, 3], &mut out, 0, JupiterColourType::Rgb888);
    assert_eq!(out, vec![3, 2, 1]);
    let mut out = vec![0u8; 4];
    copy_and_convert_pixel_data(&[1, 2, 3, 4], &mut out, 0, JupiterColourType::Rgba8888);
    assert_eq!(out, vec![4, 3, 2, 1]);
    let mut out = vec![0u8; 1];
    copy_and_convert_pixel_data(&[7], &mut out, 0, JupiterColourType::L8);
    assert_eq!(out, vec![7]);
}

#[test]
fn strides_of_each_format() {
    let all = [
        (JupiterColourType::L8, 1, 1),
        (JupiterColourType::Rgba4444, 2, 4),
        (JupiterColourType::Rgba5551, 2, 4),
        (JupiterColourType::Rgb888, 3, 3),
        (JupiterColourType::Rgba8888, 4, 4),
    ];
    for (c, input, output) in all {
        assert_eq!(c.bytes_per_pixel(), input);
        assert_eq!(c.bits_per_pixel(), input * 8);
        assert_eq!(c.output_bytes_per_pixel(), output);
    }
}

#[test]
fn colour_codes() {
    assert_eq!(JupiterColourType::try_from(0).unwrap(), JupiterColourType::L8);
    assert_eq!(JupiterColourType::try_from(2).unwrap(), JupiterColourType::Rgba8888);
    assert_eq!(JupiterColourType::try_from(3).unwrap(), JupiterColourType::Rgb888);
    assert_eq!(JupiterColourType::try_from(4).unwrap(), JupiterColourType::Rgba4444);
    assert_eq!(JupiterColourType::try_from(5).unwrap(), JupiterColourType::Rgba5551);
    assert_eq!(JupiterColourType::try_from(6).unwrap(), JupiterColourType::Rgba5551);
    assert!(matches!(JupiterColourType::try_from(1), Err(Error::ColourType(1))));
    assert!(matches!(JupiterColourType::try_from(7), Err(Error::ColourType(7))));
}

#[test]
fn single_tile_rgba8888_round_trip() {
    let mut b = header(16, 2, 8, 8);
    for n in 0..64u8 {
        b.extend_from_slice(&[n, 100 + n, 200, 50]);
    }
    let reader = JupiterReader::decode_uncompressed(&b);
    assert!(reader.is_ok());
    let mut reader = reader.unwrap();
    let mut out = vec![0u8; 256];
    assert_eq!(reader.read(&mut out), 256);
    for y in 0..8u32 {
        for x in 0..8u32 {
            let n = morton(x, y) as u8;
            let at = ((y * 8 + x) * 4) as usize;
            assert_eq!(&out[at..at + 4], &[50, 200, 100 + n, n]);
        }
    }
    // stored pixel 1 lands at (1, 0), stored pixel 2 at (0, 1)
    assert_eq!(out[4 + 3], 1);
    assert_eq!(out[8 * 4 + 3], 2);
    assert_eq!(reader.read(&mut out), 0);
}

#[test]
fn single_tile_through_decode() {
    let mut b = header(20, 2, 8, 8);
    for n in 0..64u8 {
        b.extend_from_slice(&[n, 1, 2, 3]);
    }
    let decoder = JupiterDecoder::decode(&b).ok().unwrap();
    assert_eq!(decoder.dimensions(), (8, 8));
    assert_eq!(decoder.original_color_type(), JupiterColourType::Rgba8888);
    assert_eq!(decoder.total_bytes(), 256);
    let out = read_all(decoder);
    assert_eq!(&out[0..4], &[3, 2, 1, 0]);
    assert_eq!(&out[4..8], &[3, 2, 1, 1]);
    assert_eq!(&out[32..36], &[3, 2, 1, 2]);
}

#[test]
fn unknown_colour_format() {
    let mut b = header(16, 99, 8, 8);
    b.extend_from_slice(&[0u8; 256]);
    assert!(matches!(JupiterReader::decode_uncompressed(&b), Err(Error::ColourType(99))));
    let mut b = header(20, 99, 8, 8);
    b.extend_from_slice(&[0u8; 256]);
    assert!(matches!(JupiterDecoder::decode(&b), Err(Error::ColourType(99))));
}

#[test]
fn payload_one_byte_short() {
    let mut b = header(16, 2, 8, 8);
    b.extend_from_slice(&[0u8; 255]);
    assert!(matches!(
        JupiterReader::decode_uncompressed(&b),
        Err(Error::Truncated(Truncation::PayloadSize))
    ));
    b.push(0);
    assert!(JupiterReader::decode_uncompressed(&b).is_ok());
}

#[test]
fn short_buffers() {
    assert!(matches!(
        JupiterReader::decode_uncompressed(&[]),
        Err(Error::Truncated(Truncation::HeaderTooShort))
    ));
    assert!(matches!(
        JupiterDecoder::decode(&[]),
        Err(Error::Truncated(Truncation::HeaderTooShort))
    ));
    let b = header(16, 0, 8, 8);
    assert!(matches!(
        JupiterReader::decode_uncompressed(&b[..15]),
        Err(Error::Truncated(Truncation::HeaderTooShort))
    ));
}

#[test]
fn header_beyond_buffer_and_zero_dimensions() {
    let mut b = header(16, 0, 8, 8);
    b[0] = 200;
    b.extend_from_slice(&[0u8; 64]);
    assert!(matches!(
        JupiterReader::decode_uncompressed(&b),
        Err(Error::Truncated(Truncation::PayloadSize))
    ));
    let b = header(16, 0, 0, 8);
    assert!(matches!(
        JupiterReader::decode_uncompressed(&b),
        Err(Error::Truncated(Truncation::PayloadSize))
    ));
}

#[test]
fn padding_pixels_are_cropped() {
    let mut b = header(16, 0, 10, 10);
    for n in 0..256u32 {
        b.push(n as u8);
    }
    let mut reader = JupiterReader::decode_uncompressed(&b).ok().unwrap();
    let mut out = vec![0u8; 200];
    assert_eq!(reader.read(&mut out), 100);
    for y in 0..10u32 {
        for x in 0..10u32 {
            let tile = (y / 8) * 2 + x / 8;
            let n = tile * 64 + morton(x % 8, y % 8);
            assert_eq!(out[(y * 10 + x) as usize], n as u8);
        }
    }
    assert!(out[100..].iter().all(|&v| v == 0));
}

#[test]
fn padded_canvas_needs_padded_payload() {
    let mut b = header(16, 0, 10, 10);
    b.extend_from_slice(&[0u8; 100]);
    assert!(matches!(
        JupiterReader::decode_uncompressed(&b),
        Err(Error::Truncated(Truncation::PayloadSize))
    ));
}

#[test]
fn wide_image_spans_tiles_in_row_order() {
    let mut b = header(16, 4, 16, 8);
    for n in 0..128u32 {
        let v = (n % 16) as u8;
        b.extend_from_slice(&[v, v << 4]);
    }
    let mut reader = JupiterReader::decode_uncompressed(&b).ok().unwrap();
    let mut out = vec![0u8; 16 * 8 * 4];
    assert_eq!(reader.read(&mut out), 512);
    for y in 0..8u32 {
        for x in 0..16u32 {
            let n = (x / 8) * 64 + morton(x % 8, y);
            let v = (n % 16) as u8 * 17;
            let at = ((y * 16 + x) * 4) as usize;
            assert_eq!(&out[at..at + 4], &[v, 0, 0, v]);
        }
    }
}

#[test]
fn chunked_reads() {
    let mut b = header(16, 3, 8, 8);
    for n in 0..64u8 {
        b.extend_from_slice(&[n, n, n]);
    }
    let mut reader = JupiterReader::decode_uncompressed(&b).ok().unwrap();
    let mut all = Vec::new();
    let mut chunk = [0u8; 50];
    loop {
        let got = reader.read(&mut chunk);
        if got == 0 {
            break;
        }
        all.extend_from_slice(&chunk[..got]);
    }
    assert_eq!(all.len(), 192);
    assert_eq!(&all[3..6], &[1, 1, 1]);
}

#[test]
fn compressed_buffer_is_decompressed_first() {
    let mut plain = header(16, 0, 8, 8);
    for n in 0..64u8 {
        plain.push(n);
    }
    let compressed = lz10_literal(&plain);
    assert_eq!(compressed[0], 0x10);
    let decoder = JupiterDecoder::decode(&compressed).ok().unwrap();
    assert_eq!(decoder.dimensions(), (8, 8));
    let out = read_all(decoder);
    assert_eq!(out[1], 1);
    assert_eq!(out[8], 2);
}

#[test]
fn lz11_marker_is_decompressed_first() {
    let mut b = vec![0x11u8];
    b.extend_from_slice(&[0u8; 40]);
    // an LZ11 stream of length zero: the decompressor gives nothing back
    assert!(matches!(
        JupiterDecoder::decode(&b),
        Err(Error::Truncated(Truncation::HeaderTooShort))
    ));
}

#[test]
fn broken_compressed_stream_fails() {
    assert!(matches!(
        JupiterDecoder::new(&[0x10]),
        Err(Error::Compression(NintendoLzError::Unknown(_)))
    ));
    assert!(matches!(
        JupiterDecoder::decode(&[0x11, 0x05, 0x00, 0x00]),
        Err(Error::Compression(_))
    ));
}

#[test]
fn header_length_sixteen_reads_as_lz10_marker() {
    let mut b = header(16, 0, 8, 8);
    b.extend_from_slice(&[0u8; 64]);
    assert_eq!(b[0], 0x10);
    assert!(JupiterReader::decode_uncompressed(&b).is_ok());
    assert!(JupiterDecoder::decode(&b).is_err());
}

#[test]
fn other_first_bytes_are_not_decompressed() {
    let mut b = header(0x12, 0, 8, 8);
    b.extend_from_slice(&[5u8; 64]);
    let out = read_all(JupiterDecoder::decode(&b).ok().unwrap());
    assert_eq!(out, vec![5u8; 64]);
}

#[test]
fn back_reference_before_output_is_refused() {
    let stream = [0x10u8, 0x04, 0x00, 0x00, 0x80, 0x00, 0x00];
    assert!(!lz_references_checked(&stream));
    assert!(matches!(
        JupiterDecoder::decode(&stream),
        Err(Error::Compression(NintendoLzError::Unknown(_)))
    ));
    // LZ11, three-byte token (top nibble 0) with displacement 1 after one literal
    let stream = [0x11u8, 0x10, 0x00, 0x00, 0x40, 0x07, 0x00, 0x00, 0x01];
    assert!(!lz_references_checked(&stream));
    assert!(matches!(JupiterDecoder::decode(&stream), Err(Error::Compression(_))));
}

#[test]
fn back_reference_check_accepts_good_and_incomplete_streams() {
    assert!(lz_references_checked(&lz10_literal(&[1, 2, 3])));
    assert!(lz_references_checked(&[0x10, 0x04, 0x00, 0x00, 0x40, 0x05, 0x00, 0x00]));
    assert!(!lz_references_checked(&[0x10, 0x04, 0x00, 0x00, 0x40, 0x05, 0x00, 0x01]));
    // the input ends inside the token: the decompressor reports an error instead
    assert!(lz_references_checked(&[0x10, 0x04, 0x00, 0x00, 0x80, 0x00]));
    assert!(lz_references_checked(&[0x12, 0x04, 0x00, 0x00, 0x80, 0x00, 0x00]));
    assert!(lz_references_checked(&[0x10]));
    assert!(lz_references_checked(&[]));
}

#[test]
fn compressed_buffer_with_back_references() {
    let plain_header = header(16, 0, 8, 8);
    let mut stream = vec![0x10u8, 80, 0, 0];
    for block in plain_header.chunks(8) {
        stream.push(0);
        stream.extend_from_slice(block);
    }
    stream.push(0b0111_1000);
    stream.push(7);
    stream.extend_from_slice(&[0xF0, 0x00, 0xF0, 0x00, 0xF0, 0x00, 0x60, 0x00]);
    assert!(lz_references_checked(&stream));
    let out = read_all(JupiterDecoder::decode(&stream).ok().unwrap());
    assert_eq!(out, vec![7u8; 64]);
}

#[test]
fn padding_bytes_do_not_reach_the_output() {
    let mut b = header(16, 0, 10, 10);
    for n in 0..256u32 {
        b.push(n as u8);
    }
    let mut b2 = b.clone();
    // stored pixel 68 lies at (10, 0) and 160 at (0, 12): both on the padding
    assert_eq!(decimal_ordinate_to_x_y(68 % 64), (2, 0));
    b2[16 + 68] = 0xEE;
    b2[16 + 160] = 0xDD;
    let mut r1 = JupiterReader::decode_uncompressed(&b).ok().unwrap();
    let mut r2 = JupiterReader::decode_uncompressed(&b2).ok().unwrap();
    let mut o1 = vec![0u8; 100];
    let mut o2 = vec![0u8; 100];
    assert_eq!(r1.read(&mut o1), 100);
    assert_eq!(r2.read(&mut o2), 100);
    assert_eq!(o1, o2);
}

#[test]
fn four_bit_channels_grow_with_their_nibble() {
    for va in 0..16u8 {
        for vb in 0..16u8 {
            let mut oa = vec![0u8; 4];
            let mut ob = vec![0u8; 4];
            copy_and_convert_pixel_data(&[0x5A, (va << 4) | 3], &mut oa, 0, JupiterColourType::Rgba4444);
            copy_and_convert_pixel_data(&[0x5A, (vb << 4) | 3], &mut ob, 0, JupiterColourType::Rgba4444);
            assert_eq!(va < vb, oa[0] < ob[0]);
            assert_eq!(&oa[1..], &ob[1..]);
        }
    }
}

#[test]
fn five_bit_channels_grow_with_their_field() {
    for va in 0..32u16 {
        for vb in 0..32u16 {
            let base: u16 = (3 << 11) | 1;
            let wa = (base | (va << 6)).to_le_bytes();
            let wb = (base | (vb << 6)).to_le_bytes();
            let mut oa = vec![0u8; 4];
            let mut ob = vec![0u8; 4];
            copy_and_convert_pixel_data(&wa, &mut oa, 0, JupiterColourType::Rgba5551);
            copy_and_convert_pixel_data(&wb, &mut ob, 0, JupiterColourType::Rgba5551);
            assert_eq!(va < vb, oa[1] < ob[1]);
            assert_eq!((oa[0], oa[2], oa[3]), (ob[0], ob[2], ob[3]));
        }
    }
}

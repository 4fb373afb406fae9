use libflipnote::error::PpmError;
use libflipnote::ppm::frames::line::{LineEncoding, PPMLine};
use libflipnote::utils::cursor::ByteCursor;

fn line_from(pixels: &[u8], encoding: LineEncoding) -> PPMLine {
    let mut line = PPMLine::new(encoding);
    for (x, pixel) in pixels.iter().enumerate() {
        line.set(x, *pixel).unwrap();
    }
    line
}

fn decode(bytes: &[u8], encoding: LineEncoding) -> (Result<(), PpmError>, Vec<u8>, usize) {
    let mut line = PPMLine::new(encoding);
    let mut cursor = ByteCursor::new(bytes);
    let result = line.parse(&mut cursor);
    (result, line.get_data(), cursor.position())
}

fn pattern(seed: u32) -> Vec<u8> {
    let mut state = seed;
    let mut pixels = vec![0u8; 256];
    for pixel in pixels.iter_mut() {
        state = state.wrapping_mul(1664525).wrapping_add(1013904223);
        *pixel = ((state >> 16) & 1) as u8;
    }
    pixels
}

#[test]
fn raw_line_decodes_bits_lowest_first() {
    let mut bytes = vec![0u8; 32];
    bytes[0] = 0b0000_0101;
    bytes[31] = 0x80;
    let (result, data, position) = decode(&bytes, LineEncoding::Raw);
    assert_eq!(result, Ok(()));
    assert_eq!(data.len(), 256);
    assert_eq!(data[0], 1);
    assert_eq!(data[1], 0);
    assert_eq!(data[2], 1);
    assert_eq!(data[254], 0);
    assert_eq!(data[255], 1);
    assert_eq!(position, 32);
}

#[test]
fn raw_line_needs_thirty_two_bytes() {
    let bytes = vec![0xFFu8; 31];
    let (result, data, _) = decode(&bytes, LineEncoding::Raw);
    assert_eq!(result, Err(PpmError::Format));
    assert_eq!(data, vec![0u8; 256]);
}

#[test]
fn skip_line_reads_nothing_and_is_blank() {
    let bytes = vec![0xFFu8; 4];
    let (result, data, position) = decode(&bytes, LineEncoding::Skip);
    assert_eq!(result, Ok(()));
    assert_eq!(data, vec![0u8; 256]);
    assert_eq!(position, 0);
}

#[test]
fn coded_line_fills_flagged_chunks_only() {
    // The top bit flags chunk 0, the lowest bit chunk 31.
    let bytes = vec![0x80, 0x00, 0x00, 0x01, 0b0000_0011, 0b1000_0000, 0xEE];
    let (result, data, position) = decode(&bytes, LineEncoding::Coded);
    assert_eq!(result, Ok(()));
    assert_eq!(position, 6);
    let mut expected = vec![0u8; 256];
    expected[0] = 1;
    expected[1] = 1;
    expected[255] = 1;
    assert_eq!(data, expected);
}

#[test]
fn inverted_coded_line_leaves_other_chunks_set() {
    let bytes = vec![0x40, 0x00, 0x00, 0x00, 0b0000_0100];
    let (result, data, position) = decode(&bytes, LineEncoding::InvertedCoded);
    assert_eq!(result, Ok(()));
    assert_eq!(position, 5);
    let mut expected = vec![1u8; 256];
    for x in 8..16 {
        expected[x] = 0;
    }
    expected[10] = 1;
    assert_eq!(data, expected);
}

#[test]
fn coded_line_with_missing_chunk_is_refused() {
    let bytes = vec![0xC0, 0x00, 0x00, 0x00, 0x01];
    let (result, _, _) = decode(&bytes, LineEncoding::Coded);
    assert_eq!(result, Err(PpmError::Format));
    let short = vec![0x00, 0x00, 0x00];
    let (result, _, _) = decode(&short, LineEncoding::Coded);
    assert_eq!(result, Err(PpmError::Format));
}

#[test]
fn every_encoding_gives_the_line_back() {
    let encodings = [LineEncoding::Coded, LineEncoding::InvertedCoded, LineEncoding::Raw];
    for seed in 0..20u32 {
        let pixels = pattern(seed);
        for encoding in encodings.iter() {
            let line = line_from(&pixels, *encoding);
            let stored = line.encode().unwrap();
            let (result, data, position) = decode(&stored, *encoding);
            assert_eq!(result, Ok(()));
            assert_eq!(data, pixels);
            assert_eq!(position, stored.len());
        }
    }
}

#[test]
fn blank_line_under_skip_stores_nothing() {
    let line = line_from(&vec![0u8; 256], LineEncoding::Skip);
    let stored = line.encode().unwrap();
    assert!(stored.is_empty());
    let (result, data, _) = decode(&stored, LineEncoding::Skip);
    assert_eq!(result, Ok(()));
    assert_eq!(data, vec![0u8; 256]);
}

#[test]
fn line_of_ones_under_inverted_coded_stores_the_flag_word_only() {
    let line = line_from(&vec![1u8; 256], LineEncoding::InvertedCoded);
    let stored = line.encode().unwrap();
    assert_eq!(stored, vec![0u8, 0, 0, 0]);
    let (result, data, position) = decode(&stored, LineEncoding::InvertedCoded);
    assert_eq!(result, Ok(()));
    assert_eq!(data, vec![1u8; 256]);
    assert_eq!(position, 4);
}

#[test]
fn skip_cannot_store_a_set_pixel() {
    let mut pixels = vec![0u8; 256];
    pixels[200] = 1;
    let line = line_from(&pixels, LineEncoding::Skip);
    assert_eq!(line.encode(), Err(PpmError::Codec));
}

#[test]
fn coded_encoding_has_exact_bytes() {
    let mut pixels = vec![0u8; 256];
    pixels[8] = 1;
    pixels[15] = 1;
    pixels[248] = 1;
    let line = line_from(&pixels, LineEncoding::Coded);
    assert_eq!(line.encode().unwrap(), vec![0x40, 0x00, 0x00, 0x01, 0x81, 0x01]);
    let raw = line_from(&pixels, LineEncoding::Raw).encode().unwrap();
    assert_eq!(raw.len(), 32);
    assert_eq!(raw[1], 0x81);
    assert_eq!(raw[31], 0x01);
    assert_eq!(raw[0], 0);
}

#[test]
fn minimal_encoding_picks_the_shortest() {
    assert_eq!(line_from(&vec![0u8; 256], LineEncoding::Raw).minimal_encoding(), LineEncoding::Skip);
    assert_eq!(
        line_from(&vec![1u8; 256], LineEncoding::Raw).minimal_encoding(),
        LineEncoding::InvertedCoded
    );
    let mut sparse = vec![0u8; 256];
    sparse[3] = 1;
    assert_eq!(line_from(&sparse, LineEncoding::Raw).minimal_encoding(), LineEncoding::Coded);
    let mut dense = vec![0u8; 256];
    for chunk in 0..32 {
        dense[chunk * 8] = 1;
    }
    // Every chunk is stored under both coded forms: 36 bytes each against 32 raw.
    assert_eq!(line_from(&dense, LineEncoding::Skip).minimal_encoding(), LineEncoding::Raw);
    let mut tie = vec![0u8; 256];
    for x in 0..128 {
        tie[x] = 1;
    }
    // Sixteen chunks differ from each fill: the coded form comes first.
    assert_eq!(line_from(&tie, LineEncoding::Raw).minimal_encoding(), LineEncoding::Coded);
}

#[test]
fn minimal_encoding_decodes_to_the_line() {
    for seed in 100..110u32 {
        let pixels = pattern(seed);
        let mut line = line_from(&pixels, LineEncoding::Raw);
        line.encoding = line.minimal_encoding();
        let stored = line.encode().unwrap();
        let (result, data, _) = decode(&stored, line.encoding);
        assert_eq!(result, Ok(()));
        assert_eq!(data, pixels);
    }
}

#[test]
fn pixel_access_checks_its_bounds() {
    let mut line = PPMLine::new(LineEncoding::Raw);
    assert_eq!(line.get(0), Ok(0));
    assert_eq!(line.get(255), Ok(0));
    assert_eq!(line.get(256), Err(PpmError::Bounds));
    assert_eq!(line.set(256, 1), Err(PpmError::Bounds));
    assert_eq!(line.set(3, 2), Err(PpmError::Bounds));
    assert_eq!(line.set(3, 1), Ok(()));
    assert_eq!(line.get(3), Ok(1));
    assert_eq!(line.apply_diffing(3, 1), Ok(()));
    assert_eq!(line.get(3), Ok(0));
    assert_eq!(line.apply_diffing(3, 0), Ok(()));
    assert_eq!(line.get(3), Ok(0));
    assert_eq!(line.apply_diffing(300, 1), Err(PpmError::Bounds));
    assert_eq!(line.apply_diffing(3, 7), Err(PpmError::Bounds));
}

#[test]
fn encoding_codes_map_both_ways() {
    assert_eq!(LineEncoding::from(0), LineEncoding::Skip);
    assert_eq!(LineEncoding::from(1), LineEncoding::Coded);
    assert_eq!(LineEncoding::from(2), LineEncoding::InvertedCoded);
    assert_eq!(LineEncoding::from(3), LineEncoding::Raw);
    assert_eq!(LineEncoding::from(200), LineEncoding::Raw);
    assert_eq!(LineEncoding::default(), LineEncoding::Raw);
    assert_eq!(LineEncoding::InvertedCoded.code(), 2);
    assert_eq!(PPMLine::default().encoding, LineEncoding::Raw);
}

#[test]
fn cursor_reads_numbers_in_both_byte_orders() {
    let bytes = vec![0x01, 0x02, 0x03, 0x04, 0x05, 0x06, 0x07, 0x08, 0xFF];
    let mut cursor = ByteCursor::new(&bytes);
    assert_eq!(cursor.read_u16_le(), Ok(0x0201));
    cursor.seek(0);
    assert_eq!(cursor.read_u32_le(), Ok(0x04030201));
    cursor.seek(0);
    assert_eq!(cursor.read_u32_be(), Ok(0x01020304));
    cursor.seek(0);
    assert_eq!(cursor.read_u64_le(), Ok(0x0807060504030201));
    assert_eq!(cursor.read_i8(), Ok(-1));
    assert_eq!(cursor.read_u8(), Err(PpmError::Format));
    cursor.seek(7);
    assert_eq!(cursor.read_u16_le(), Ok(0xFF08));
    cursor.seek(8);
    assert_eq!(cursor.read_u16_le(), Err(PpmError::Format));
    assert_eq!(cursor.position(), 8);
    cursor.seek(100);
    assert_eq!(cursor.available(), 0);
    assert_eq!(cursor.skip(1), Err(PpmError::Format));
    cursor.seek(2);
    assert_eq!(cursor.read_bytes(3), Ok(vec![0x03, 0x04, 0x05]));
    assert_eq!(cursor.position(), 5);
}

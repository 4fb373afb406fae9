use libflipnote::error::PpmError;
use libflipnote::ppm::frames::animation_data::PPMAnimationData;
use libflipnote::ppm::frames::animation_flags::PPMAnimationFlags;
use libflipnote::ppm::frames::frame::PPMFrame;
use libflipnote::ppm::frames::frame_header::{
    PPMFrameHeader, PPMFrameType, PPMLayerColor, PPMPaperColor,
};
use libflipnote::ppm::frames::layer::PPMLayer;
use libflipnote::ppm::frames::line::LineEncoding;
use libflipnote::utils::cursor::ByteCursor;
use libflipnote::utils::image_utils::RgbWrapper;

/// A frame stored whole: white paper, layer 1 red, layer 2 blue; line 0 of layer 1 is raw
/// with pixel 0 set, line 191 of layer 2 is coded with pixel 255 set.
fn whole_frame() -> Vec<u8> {
    let mut bytes = vec![0x9Du8];
    let mut selectors_1 = vec![0u8; 48];
    selectors_1[0] = 0xC0;
    let mut selectors_2 = vec![0u8; 48];
    selectors_2[47] = 0x01;
    bytes.extend_from_slice(&selectors_1);
    bytes.extend_from_slice(&selectors_2);
    let mut raw = vec![0u8; 32];
    raw[0] = 0x01;
    bytes.extend_from_slice(&raw);
    bytes.extend_from_slice(&[0x00, 0x00, 0x00, 0x01, 0x80]);
    bytes
}

/// A frame stored as a difference, moved by (1, 0): line 0 of layer 1 is coded with pixels
/// 1 and 2 set.
fn difference_frame() -> Vec<u8> {
    let mut bytes = vec![0x3Du8, 0x01, 0x00];
    let mut selectors_1 = vec![0u8; 48];
    selectors_1[0] = 0x40;
    bytes.extend_from_slice(&selectors_1);
    bytes.extend_from_slice(&vec![0u8; 48]);
    bytes.extend_from_slice(&[0x80, 0x00, 0x00, 0x00, 0x06]);
    bytes
}

fn parse(bytes: &[u8], flags: u16, previous: Option<PPMFrame>) -> Result<PPMFrame, PpmError> {
    let mut cursor = ByteCursor::new(bytes);
    PPMFrame::parse(&mut cursor, &PPMAnimationFlags { flags }, previous)
}

#[test]
fn frame_header_fields_are_independent() {
    let mut header = PPMFrameHeader::default();
    assert_eq!(header.get_frame_type(), PPMFrameType::Diffed);
    assert_eq!(header.get_paper_color(), PPMPaperColor::Black);
    assert!(!header.get_is_translated());
    header.set_frame_type(PPMFrameType::Normal);
    header.set_is_translated(true);
    header.set_paper_color(PPMPaperColor::White);
    header.set_layer_color(1, PPMLayerColor::Red).unwrap();
    header.set_layer_color(2, PPMLayerColor::Blue).unwrap();
    assert_eq!(header.header, 0x80 | 0x20 | 0x01 | 0x04 | 0x18);
    assert_eq!(header.get_frame_type(), PPMFrameType::Normal);
    assert!(header.get_is_translated());
    assert_eq!(header.get_paper_color(), PPMPaperColor::White);
    assert_eq!(header.get_layer_color(1), Ok(PPMLayerColor::Red));
    assert_eq!(header.get_layer_color(2), Ok(PPMLayerColor::Blue));
    header.set_layer_color(1, PPMLayerColor::InverseOfPaper).unwrap();
    assert_eq!(header.get_layer_color(1), Ok(PPMLayerColor::InverseOfPaper));
    assert_eq!(header.get_layer_color(2), Ok(PPMLayerColor::Blue));
    header.set_frame_type(PPMFrameType::Diffed);
    assert_eq!(header.get_frame_type(), PPMFrameType::Diffed);
    assert!(header.get_is_translated());
    header.set_is_translated(false);
    assert!(!header.get_is_translated());
    assert_eq!(header.get_layer_color(0), Err(PpmError::Bounds));
    assert_eq!(header.get_layer_color(3), Err(PpmError::Bounds));
    assert_eq!(header.set_layer_color(3, PPMLayerColor::Red), Err(PpmError::Bounds));
}

#[test]
fn translation_field_is_two_bits_wide() {
    let header = PPMFrameHeader { header: 0x40 };
    assert!(header.get_is_translated());
    for field in [0x00u8, 0x20, 0x40, 0x60] {
        let mut cleared = PPMFrameHeader { header: 0x9F | field };
        cleared.set_is_translated(false);
        assert_eq!(cleared.header, 0x9F);
        assert!(!cleared.get_is_translated());
        let mut set = PPMFrameHeader { header: field };
        set.set_is_translated(true);
        assert_eq!(set.header, 0x20);
        assert!(set.get_is_translated());
    }
    let code_one = PPMFrameHeader { header: 0x02 };
    assert_eq!(code_one.get_layer_color(1), Ok(PPMLayerColor::InverseOfPaper));
}

#[test]
fn colours_follow_the_paper() {
    let white = PPMPaperColor::White;
    let black = PPMPaperColor::Black;
    assert_eq!(white.get_rgb_color(), RgbWrapper::new(255, 255, 255));
    assert_eq!(black.get_rgb_color(), RgbWrapper::new(14, 14, 14));
    assert_eq!(PPMLayerColor::InverseOfPaper.get_rgb_color(&white), RgbWrapper::new(14, 14, 14));
    assert_eq!(PPMLayerColor::InverseOfPaper.get_rgb_color(&black), RgbWrapper::new(255, 255, 255));
    assert_eq!(PPMLayerColor::Red.get_rgb_color(&white), RgbWrapper::new(255, 42, 42));
    assert_eq!(PPMLayerColor::Blue.get_rgb_color(&black), RgbWrapper::new(10, 57, 255));
    assert_eq!(white.index(), 0);
    assert_eq!(black.index(), 1);
}

#[test]
fn animation_flags_use_bits_one_four_and_five() {
    let mut flags = PPMAnimationFlags::default();
    assert!(!flags.get_loop());
    flags.set_loop(true);
    assert_eq!(flags.flags, 0x2);
    flags.set_hide_layer(1, true).unwrap();
    assert_eq!(flags.flags, 0x12);
    flags.set_hide_layer(2, true).unwrap();
    assert_eq!(flags.flags, 0x32);
    assert_eq!(flags.get_hide_layer(1), Ok(true));
    assert_eq!(flags.get_hide_layer(2), Ok(true));
    flags.set_loop(false);
    assert_eq!(flags.flags, 0x30);
    flags.set_hide_layer(1, false).unwrap();
    assert_eq!(flags.get_hide_layer(1), Ok(false));
    assert_eq!(flags.get_hide_layer(2), Ok(true));
    assert_eq!(flags.get_hide_layer(0), Err(PpmError::Bounds));
    assert_eq!(flags.set_hide_layer(3, true), Err(PpmError::Bounds));
    assert_eq!(flags.flags, 0x20);
}

#[test]
fn layer_pixels_are_set_and_read_by_column_and_line() {
    let mut layer = PPMLayer::new(&[LineEncoding::Skip, LineEncoding::Coded]);
    assert_eq!(layer.lines.len(), 192);
    assert_eq!(layer.lines[0].encoding, LineEncoding::Skip);
    assert_eq!(layer.lines[1].encoding, LineEncoding::Coded);
    assert_eq!(layer.lines[2].encoding, LineEncoding::Raw);
    assert_eq!(layer.get(255, 191), Ok(false));
    assert_eq!(layer.get(256, 0), Err(PpmError::Bounds));
    assert_eq!(layer.get(0, 192), Err(PpmError::Bounds));
    layer.set(7, 5, true).unwrap();
    assert_eq!(layer.get(7, 5), Ok(true));
    assert_eq!(layer.get(5, 7), Ok(false));
    let data = layer.get_data().unwrap();
    assert_eq!(data.len(), 256 * 192);
    assert_eq!(data[5 * 256 + 7], 1);
    assert_eq!(data.iter().filter(|p| **p != 0).count(), 1);
    layer.apply_diffing(7, 5, 1).unwrap();
    assert_eq!(layer.get(7, 5), Ok(false));
    assert_eq!(layer.set(0, 192, true), Err(PpmError::Bounds));
    assert_eq!(layer.apply_diffing(0, 192, 1), Err(PpmError::Bounds));
    assert!(layer.check_shape());
    layer.lines.pop();
    assert!(!layer.check_shape());
    assert_eq!(layer.get_data(), Err(PpmError::Bounds));
}

#[test]
fn whole_frame_is_decoded_as_stored() {
    let bytes = whole_frame();
    let mut cursor = ByteCursor::new(&bytes);
    let frame = PPMFrame::parse(&mut cursor, &PPMAnimationFlags { flags: 0 }, None).unwrap();
    assert_eq!(cursor.position(), bytes.len());
    assert_eq!(frame.header.header, 0x9D);
    assert_eq!(frame.translate_x, 0);
    assert_eq!(frame.translate_y, 0);
    assert_eq!(frame.layer_1.lines[0].encoding, LineEncoding::Raw);
    assert_eq!(frame.layer_1.lines[1].encoding, LineEncoding::Skip);
    assert_eq!(frame.layer_2.lines[191].encoding, LineEncoding::Coded);
    assert_eq!(frame.layer_2.lines[190].encoding, LineEncoding::Skip);
    assert_eq!(frame.layer_1.get(0, 0), Ok(true));
    assert_eq!(frame.layer_1.get(1, 0), Ok(false));
    assert_eq!(frame.layer_2.get(255, 191), Ok(true));
    assert_eq!(frame.layer_2.get(254, 191), Ok(false));
    let set_1 = frame.layer_1.get_data().unwrap().iter().filter(|p| **p != 0).count();
    let set_2 = frame.layer_2.get_data().unwrap().iter().filter(|p| **p != 0).count();
    assert_eq!((set_1, set_2), (1, 1));
}

#[test]
fn selector_codes_are_read_from_the_top_bits_down() {
    let mut bytes = vec![0x80u8];
    let mut selectors = vec![0u8; 48];
    // Lines 4 to 7: raw, inverted, coded, skip.
    selectors[1] = 0b11_10_01_00;
    bytes.extend_from_slice(&selectors);
    bytes.extend_from_slice(&vec![0u8; 48]);
    bytes.extend_from_slice(&vec![0u8; 32]);
    bytes.extend_from_slice(&[0, 0, 0, 0]);
    bytes.extend_from_slice(&[0, 0, 0, 0]);
    let frame = parse(&bytes, 0, None).unwrap();
    assert_eq!(frame.layer_1.lines[4].encoding, LineEncoding::Raw);
    assert_eq!(frame.layer_1.lines[5].encoding, LineEncoding::InvertedCoded);
    assert_eq!(frame.layer_1.lines[6].encoding, LineEncoding::Coded);
    assert_eq!(frame.layer_1.lines[7].encoding, LineEncoding::Skip);
    assert_eq!(frame.layer_1.get(17, 5), Ok(true));
    assert_eq!(frame.layer_1.get(17, 6), Ok(false));
}

#[test]
fn truncated_frame_is_a_format_error() {
    let bytes = whole_frame();
    for cut in [0usize, 1, 50, 96, 97, 128, bytes.len() - 1] {
        assert_eq!(parse(&bytes[..cut], 0, None).err(), Some(PpmError::Format));
    }
    let moved = difference_frame();
    assert_eq!(parse(&moved[..2], 0, None).err(), Some(PpmError::Format));
}

#[test]
fn difference_takes_the_moved_frame_before_it_in() {
    let previous = parse(&whole_frame(), 0, None).unwrap();
    let frame = parse(&difference_frame(), 0, Some(previous)).unwrap();
    assert_eq!(frame.translate_x, 1);
    assert_eq!(frame.translate_y, 0);
    // Pixel 1 was stored set and its source, pixel 0 of the frame before, is set too.
    assert_eq!(frame.layer_1.get(0, 0), Ok(false));
    assert_eq!(frame.layer_1.get(1, 0), Ok(false));
    assert_eq!(frame.layer_1.get(2, 0), Ok(true));
    // The source of (0, 191) lies left of the frame: the pixel stays as stored.
    assert_eq!(frame.layer_2.get(0, 191), Ok(false));
    assert_eq!(frame.layer_2.get(255, 191), Ok(false));
}

#[test]
fn first_frame_is_never_taken_as_a_difference() {
    let frame = parse(&difference_frame(), 0, None).unwrap();
    assert_eq!(frame.header.get_frame_type(), PPMFrameType::Diffed);
    assert_eq!(frame.layer_1.get(1, 0), Ok(true));
    assert_eq!(frame.layer_1.get(2, 0), Ok(true));
    assert_eq!(frame.layer_1.get(0, 0), Ok(false));
}

#[test]
fn negative_translation_clips_at_the_edge() {
    let mut previous = PPMFrame::default();
    previous.layer_1.set(255, 191, true).unwrap();
    previous.layer_1.set(0, 0, true).unwrap();
    let mut frame = PPMFrame::default();
    frame.translate_x = -1;
    frame.translate_y = -1;
    frame.decode_diffing(&previous).unwrap();
    // (254, 190) takes (255, 191) in; (0, 0) has no pixel at (1, 1) set to take in, and
    // nothing wraps round to the far edge.
    assert_eq!(frame.layer_1.get(254, 190), Ok(true));
    assert_eq!(frame.layer_1.get(255, 191), Ok(false));
    assert_eq!(frame.layer_1.get(0, 0), Ok(false));
    let set = frame.layer_1.get_data().unwrap().iter().filter(|p| **p != 0).count();
    assert_eq!(set, 1);
}

#[test]
fn taking_a_frame_in_twice_restores_the_difference() {
    let previous = parse(&whole_frame(), 0, None).unwrap();
    let stored = parse(&difference_frame(), 0, None).unwrap();
    let mut frame = stored.clone();
    frame.decode_diffing(&previous).unwrap();
    assert_ne!(frame.layer_1.get_data(), stored.layer_1.get_data());
    frame.decode_diffing(&previous).unwrap();
    assert_eq!(frame.layer_1.get_data(), stored.layer_1.get_data());
    assert_eq!(frame.layer_2.get_data(), stored.layer_2.get_data());
}

#[test]
fn frame_stored_whole_ignores_the_frame_before() {
    let previous = parse(&difference_frame(), 0, None).unwrap();
    let frame = parse(&whole_frame(), 0, Some(previous)).unwrap();
    assert_eq!(frame.layer_1.get(0, 0), Ok(true));
    assert_eq!(frame.layer_1.get(1, 0), Ok(false));
}

#[test]
fn difference_against_a_misshapen_frame_is_refused() {
    let mut previous = PPMFrame::default();
    previous.layer_2.lines.pop();
    assert_eq!(parse(&difference_frame(), 0, Some(previous)).err(), Some(PpmError::Bounds));
}

#[test]
fn painting_puts_layer_one_on_top() {
    let mut frame = parse(&whole_frame(), 0, None).unwrap();
    frame.layer_2.set(0, 0, true).unwrap();
    frame.layer_2.set(1, 0, true).unwrap();
    let image = frame.get_image().unwrap();
    assert_eq!((image.width, image.height), (256, 192));
    assert_eq!(image.pixels.len(), 256 * 192 * 4);
    assert_eq!(image.get_pixel(0, 0), Ok(RgbWrapper::new(255, 42, 42)));
    assert_eq!(image.get_pixel(1, 0), Ok(RgbWrapper::new(10, 57, 255)));
    assert_eq!(image.get_pixel(2, 0), Ok(RgbWrapper::new(255, 255, 255)));
    assert_eq!(image.get_pixel(255, 191), Ok(RgbWrapper::new(10, 57, 255)));
    assert!(image.pixels.iter().skip(3).step_by(4).all(|alpha| *alpha == 255));
}

#[test]
fn hidden_layers_are_not_painted() {
    let mut frame = parse(&whole_frame(), 0x10, None).unwrap();
    assert!(frame.hide_layer_1);
    assert!(!frame.hide_layer_2);
    frame.layer_2.set(0, 0, true).unwrap();
    let image = frame.get_image().unwrap();
    assert_eq!(image.get_pixel(0, 0), Ok(RgbWrapper::new(10, 57, 255)));
    let both = parse(&whole_frame(), 0x30, None).unwrap();
    let blank = both.get_image().unwrap();
    assert_eq!(blank.get_pixel(0, 0), Ok(RgbWrapper::new(255, 255, 255)));
    assert_eq!(blank.get_pixel(255, 191), Ok(RgbWrapper::new(255, 255, 255)));
}

#[test]
fn inverse_colour_on_black_paper_is_white() {
    let mut bytes = whole_frame();
    bytes[0] = 0x80;
    let frame = parse(&bytes, 0, None).unwrap();
    let image = frame.get_image().unwrap();
    assert_eq!(image.get_pixel(0, 0), Ok(RgbWrapper::new(255, 255, 255)));
    assert_eq!(image.get_pixel(1, 0), Ok(RgbWrapper::new(14, 14, 14)));
}

#[test]
fn one_frame_is_decoded_for_each_offset() {
    let first = whole_frame();
    let second = difference_frame();
    let mut blob = first.clone();
    blob.extend_from_slice(&second);
    blob.extend_from_slice(&first);
    let data = PPMAnimationData {
        frame_offset_table_size: 12,
        animation_flags: PPMAnimationFlags { flags: 0 },
        animation_offsets: vec![0, first.len() as u32, (first.len() + second.len()) as u32],
        animation_data: blob,
    };
    let frames = data.get_frames().unwrap();
    assert_eq!(frames.len(), 3);
    assert_eq!(frames[0].layer_1.get(0, 0), Ok(true));
    assert_eq!(frames[1].layer_1.get(1, 0), Ok(false));
    assert_eq!(frames[1].layer_1.get(2, 0), Ok(true));
    assert_eq!(frames[2].layer_1.get(0, 0), Ok(true));
    let video = data.video_stream().unwrap();
    assert_eq!(video.len(), 3 * 256 * 192 * 4);
    assert_eq!(&video[0..4], &[255, 42, 42, 255]);
    let second_frame = 256 * 192 * 4;
    assert_eq!(&video[second_frame..second_frame + 4], &[255, 255, 255, 255]);
    assert_eq!(&video[second_frame + 8..second_frame + 12], &[255, 42, 42, 255]);
}

#[test]
fn offset_behind_the_frames_is_a_format_error() {
    let blob = whole_frame();
    let data = PPMAnimationData {
        frame_offset_table_size: 8,
        animation_flags: PPMAnimationFlags { flags: 0 },
        animation_offsets: vec![0, blob.len() as u32 + 5],
        animation_data: blob,
    };
    assert_eq!(data.get_frames().err(), Some(PpmError::Format));
    assert_eq!(PPMAnimationData::default().get_frames().unwrap().len(), 0);
}

#[test]
fn encoded_frame_has_the_bytes_it_was_read_from() {
    let whole = whole_frame();
    let frame = parse(&whole, 0, None).unwrap();
    assert_eq!(frame.encode(), Ok(whole.clone()));
    let moved = difference_frame();
    let stored = parse(&moved, 0, None).unwrap();
    assert_eq!(stored.encode(), Ok(moved.clone()));
    assert_eq!(moved[1], 1);
    let mut back = stored.clone();
    back.translate_x = -3;
    back.translate_y = -128;
    let bytes = back.encode().unwrap();
    assert_eq!(&bytes[1..3], &[0xFD, 0x80]);
    let read = parse(&bytes, 0, None).unwrap();
    assert_eq!((read.translate_x, read.translate_y), (-3, -128));
}

#[test]
fn decoded_difference_is_stored_again_through_its_inverse() {
    let previous = parse(&whole_frame(), 0, None).unwrap();
    let mut frame = parse(&difference_frame(), 0, Some(previous.clone())).unwrap();
    assert_ne!(frame.encode(), Ok(difference_frame()));
    frame.decode_diffing(&previous).unwrap();
    assert_eq!(frame.encode(), Ok(difference_frame()));
}

#[test]
fn frame_with_minimal_encodings_round_trips() {
    let mut frame = PPMFrame::default();
    for y in 0..192usize {
        for x in 0..256usize {
            let first = (x * 7 + y * 13) % 11 == 0 || y % 50 == 3;
            let second = y % 3 == 0 && x % 17 != 0;
            frame.layer_1.set(x, y, first).unwrap();
            frame.layer_2.set(x, y, second).unwrap();
        }
    }
    frame.header.set_frame_type(PPMFrameType::Normal);
    frame.header.set_paper_color(PPMPaperColor::White);
    for y in 0..192 {
        frame.layer_1.lines[y].encoding = frame.layer_1.lines[y].minimal_encoding();
        frame.layer_2.lines[y].encoding = frame.layer_2.lines[y].minimal_encoding();
    }
    assert_eq!(frame.layer_2.lines[1].encoding, LineEncoding::Skip);
    assert_eq!(frame.layer_2.lines[0].encoding, LineEncoding::InvertedCoded);
    assert_eq!(frame.layer_1.lines[3].encoding, LineEncoding::InvertedCoded);
    let bytes = frame.encode().unwrap();
    let mut cursor = ByteCursor::new(&bytes);
    let read = PPMFrame::parse(&mut cursor, &PPMAnimationFlags { flags: 0 }, None).unwrap();
    assert_eq!(cursor.position(), bytes.len());
    assert_eq!(read.header, frame.header);
    assert_eq!(read.layer_1.get_data(), frame.layer_1.get_data());
    assert_eq!(read.layer_2.get_data(), frame.layer_2.get_data());
    for y in 0..192 {
        assert_eq!(read.layer_1.lines[y].encoding, frame.layer_1.lines[y].encoding);
        assert_eq!(read.layer_2.lines[y].encoding, frame.layer_2.lines[y].encoding);
    }
    let raw = {
        let mut copy = frame.clone();
        for y in 0..192 {
            copy.layer_1.lines[y].encoding = LineEncoding::Raw;
            copy.layer_2.lines[y].encoding = LineEncoding::Raw;
        }
        copy.encode().unwrap()
    };
    assert_eq!(raw.len(), 1 + 96 + 2 * 192 * 32);
    assert!(bytes.len() < raw.len());
}

#[test]
fn frame_that_cannot_be_stored_is_refused() {
    let mut frame = PPMFrame::default();
    frame.layer_1.lines[10].encoding = LineEncoding::Skip;
    assert!(frame.encode().is_ok());
    frame.layer_1.set(4, 10, true).unwrap();
    assert_eq!(frame.encode(), Err(PpmError::Codec));
    assert_eq!(frame.layer_1.encode(), Err(PpmError::Codec));
    frame.layer_1.lines[10].encoding = LineEncoding::Coded;
    assert!(frame.encode().is_ok());
    frame.translate_y = 1;
    assert_eq!(frame.encode(), Err(PpmError::Codec));
    frame.header.set_is_translated(true);
    assert!(frame.encode().is_ok());
    frame.layer_2.lines.pop();
    assert_eq!(frame.encode(), Err(PpmError::Codec));
}

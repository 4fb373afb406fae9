//! Colours of the thumbnail and of the frames: parsing, and the nearest colour of a palette.

use vstd::prelude::*;
use vstd::string::StringSliceAdditionalSpecFns;
use crate::error::PpmError;
use crate::ppm::constants::{PPM_FRAME_PALETTE, PPM_THUMBNAIL_PALETTE};
use crate::utils::image_utils::RgbWrapper;

verus! {

/// The value of a hexadecimal digit, upper or lower case.
pub open spec fn spec_hex_digit(b: u8) -> Option<int> {
    if 0x30 <= b <= 0x39 {
        Some(b - 0x30)
    } else if 0x41 <= b <= 0x46 {
        Some(b - 0x41 + 10)
    } else if 0x61 <= b <= 0x66 {
        Some(b - 0x61 + 10)
    } else {
        None
    }
}

/// The value of two characters read as a hexadecimal number: two digits, or a plus sign and
/// one digit.
pub open spec fn spec_hex_pair(first: u8, second: u8) -> Option<int> {
    match spec_hex_digit(second) {
        None => None,
        Some(low) => if first == 0x2B {
            Some(low)
        } else {
            match spec_hex_digit(first) {
                None => None,
                Some(high) => Some(16 * high + low),
            }
        },
    }
}

/// The colour that the bytes of a string give: a hash sign and three hexadecimal pairs for
/// red, green and blue, seven bytes in all.
pub open spec fn spec_hex_to_rgb(bytes: Seq<u8>) -> Option<RgbWrapper> {
    if bytes.len() == 7 && bytes[0] == 0x23 && spec_hex_pair(bytes[1], bytes[2]) is Some
        && spec_hex_pair(bytes[3], bytes[4]) is Some && spec_hex_pair(bytes[5], bytes[6])
        is Some {
        Some(
            RgbWrapper {
                r: spec_hex_pair(bytes[1], bytes[2])->Some_0 as u8,
                g: spec_hex_pair(bytes[3], bytes[4])->Some_0 as u8,
                b: spec_hex_pair(bytes[5], bytes[6])->Some_0 as u8,
            },
        )
    } else {
        None
    }
}

/// The value of a hexadecimal digit.
fn hex_digit(b: u8) -> (r: Option<u8>)
    ensures
        match spec_hex_digit(b) {
            Some(v) => r == Some(v as u8) && v < 16,
            None => r is None,
        },
{
    if 0x30 <= b && b <= 0x39 {
        Some(b - 0x30)
    } else if 0x41 <= b && b <= 0x46 {
        Some(b - 0x41 + 10)
    } else if 0x61 <= b && b <= 0x66 {
        Some(b - 0x61 + 10)
    } else {
        None
    }
}

/// The value of two characters read as a hexadecimal number.
fn hex_pair(first: u8, second: u8) -> (r: Option<u8>)
    ensures
        match spec_hex_pair(first, second) {
            Some(v) => r == Some(v as u8) && v < 256,
            None => r is None,
        },
{
    let low = match hex_digit(second) {
        Some(v) => v,
        None => {
            return None;
        },
    };
    if first == 0x2B {
        return Some(low);
    }
    match hex_digit(first) {
        Some(high) => Some(16 * high + low),
        None => None,
    }
}

/// Reads a colour written as `#RRGGBB`.
pub fn hex_to_rgb(hex: &str) -> (r: Result<RgbWrapper, PpmError>)
    ensures
        match spec_hex_to_rgb(hex.spec_bytes()) {
            Some(color) => r == Ok::<RgbWrapper, PpmError>(color),
            None => r == Err::<RgbWrapper, PpmError>(PpmError::Format),
        },
{
    let bytes = hex.as_bytes();
    if bytes.len() != 7 {
        return Err(PpmError::Format);
    }
    if bytes[0] != 0x23 {
        return Err(PpmError::Format);
    }
    let r = match hex_pair(bytes[1], bytes[2]) {
        Some(v) => v,
        None => {
            return Err(PpmError::Format);
        },
    };
    let g = match hex_pair(bytes[3], bytes[4]) {
        Some(v) => v,
        None => {
            return Err(PpmError::Format);
        },
    };
    let b = match hex_pair(bytes[5], bytes[6]) {
        Some(v) => v,
        None => {
            return Err(PpmError::Format);
        },
    };
    Ok(RgbWrapper::new(r, g, b))
}

/// Entry `index` of a palette as a colour.
pub open spec fn spec_palette_color(palette: Seq<[u8; 3]>, index: int) -> RgbWrapper {
    RgbWrapper { r: palette[index]@[0], g: palette[index]@[1], b: palette[index]@[2] }
}

/// The thumbnail colour with the given index from 0 to 15.
pub open spec fn spec_thumbnail_color(index: int) -> RgbWrapper {
    spec_palette_color(PPM_THUMBNAIL_PALETTE@, index)
}

/// The frame colour with the given index from 0 to 3.
pub open spec fn spec_frame_color(index: int) -> RgbWrapper {
    spec_palette_color(PPM_FRAME_PALETTE@, index)
}

/// Whether `index` is the first entry of the palette that is nearest to `color`: no entry is
/// nearer, and every earlier entry is further off.
pub open spec fn is_nearest(palette: Seq<[u8; 3]>, color: RgbWrapper, index: int) -> bool {
    &&& 0 <= index < palette.len()
    &&& forall|j: int|
        0 <= j < palette.len() ==> color.spec_distance_squared(spec_palette_color(palette, index))
            <= color.spec_distance_squared(#[trigger] spec_palette_color(palette, j))
    &&& forall|j: int|
        0 <= j < index ==> color.spec_distance_squared(spec_palette_color(palette, index))
            < color.spec_distance_squared(#[trigger] spec_palette_color(palette, j))
}

/// The index of the first entry of the palette that is nearest to `color`.
pub open spec fn spec_nearest_index(palette: Seq<[u8; 3]>, color: RgbWrapper) -> int {
    choose|i: int| is_nearest(palette, color, i)
}

/// There is one first nearest entry only.
pub proof fn lemma_nearest_unique(palette: Seq<[u8; 3]>, color: RgbWrapper, a: int, b: int)
    requires
        is_nearest(palette, color, a),
        is_nearest(palette, color, b),
    ensures
        a == b,
{
    if a < b {
        assert(color.spec_distance_squared(spec_palette_color(palette, b))
            < color.spec_distance_squared(spec_palette_color(palette, a)));
        assert(color.spec_distance_squared(spec_palette_color(palette, a))
            <= color.spec_distance_squared(spec_palette_color(palette, b)));
    } else if b < a {
        assert(color.spec_distance_squared(spec_palette_color(palette, a))
            < color.spec_distance_squared(spec_palette_color(palette, b)));
        assert(color.spec_distance_squared(spec_palette_color(palette, b))
            <= color.spec_distance_squared(spec_palette_color(palette, a)));
    }
}

/// The first entry of the palette that is nearest to `color` by Euclidean distance.
#[verifier::rlimit(50)]
pub fn nearest_index(palette: &[[u8; 3]], color: &RgbWrapper) -> (index: usize)
    requires
        palette@.len() > 0,
    ensures
        is_nearest(palette@, *color, index as int),
        index == spec_nearest_index(palette@, *color),
{
    let mut closest_index: usize = 0;
    let first = RgbWrapper::new(palette[0][0], palette[0][1], palette[0][2]);
    let mut closest_distance: u32 = color.distance_squared(&first);
    let mut i: usize = 1;
    while i < palette.len()
        invariant
            1 <= i <= palette@.len(),
            closest_index < i,
            closest_distance == color.spec_distance_squared(
                spec_palette_color(palette@, closest_index as int),
            ),
            forall|j: int|
                0 <= j < i ==> closest_distance <= color.spec_distance_squared(
                    #[trigger] spec_palette_color(palette@, j),
                ),
            forall|j: int|
                0 <= j < closest_index ==> closest_distance < color.spec_distance_squared(
                    #[trigger] spec_palette_color(palette@, j),
                ),
        decreases palette@.len() - i,
    {
        let entry = RgbWrapper::new(palette[i][0], palette[i][1], palette[i][2]);
        assert(entry == spec_palette_color(palette@, i as int));
        let distance = color.distance_squared(&entry);
        if distance < closest_distance {
            closest_distance = distance;
            closest_index = i;
        }
        i = i + 1;
    }
    proof {
        lemma_nearest_unique(
            palette@,
            *color,
            closest_index as int,
            spec_nearest_index(palette@, *color),
        );
    }
    closest_index
}

/// The two colours that one byte of the thumbnail holds: the first in its low half, the
/// second in its high half.
pub fn thumbnail_pixel_to_rgb(pixel: u8) -> (r: Result<(RgbWrapper, RgbWrapper), PpmError>)
    ensures
        r == Ok::<(RgbWrapper, RgbWrapper), PpmError>(
            (spec_thumbnail_color(pixel as int % 16), spec_thumbnail_color(pixel as int / 16)),
        ),
{
    let low = (pixel % 16) as usize;
    let high = (pixel / 16) as usize;
    let color1 = RgbWrapper::new(
        PPM_THUMBNAIL_PALETTE[low][0],
        PPM_THUMBNAIL_PALETTE[low][1],
        PPM_THUMBNAIL_PALETTE[low][2],
    );
    let color2 = RgbWrapper::new(
        PPM_THUMBNAIL_PALETTE[high][0],
        PPM_THUMBNAIL_PALETTE[high][1],
        PPM_THUMBNAIL_PALETTE[high][2],
    );
    Ok((color1, color2))
}

/// The byte of the thumbnail that holds the thumbnail colours nearest to two colours: the
/// first in its low half, the second in its high half.
pub fn rgb_to_thumbnail_pixel(color1: &RgbWrapper, color2: &RgbWrapper) -> (pixel: u8)
    ensures
        is_nearest(PPM_THUMBNAIL_PALETTE@, *color1, pixel as int % 16),
        is_nearest(PPM_THUMBNAIL_PALETTE@, *color2, pixel as int / 16),
        pixel == spec_nearest_index(PPM_THUMBNAIL_PALETTE@, *color1) + 16 * spec_nearest_index(
            PPM_THUMBNAIL_PALETTE@,
            *color2,
        ),
{
    let first = single_rgb_to_thumbnail_pixel(color1);
    let second = single_rgb_to_thumbnail_pixel(color2);
    (first + 16 * second) as u8
}

/// The index of the thumbnail colour nearest to `color`.
pub fn single_rgb_to_thumbnail_pixel(color: &RgbWrapper) -> (index: usize)
    ensures
        is_nearest(PPM_THUMBNAIL_PALETTE@, *color, index as int),
        index == spec_nearest_index(PPM_THUMBNAIL_PALETTE@, *color),
        index < 16,
{
    let palette = PPM_THUMBNAIL_PALETTE;
    let index = nearest_index(palette.as_slice(), color);
    index
}

/// The index of the frame colour nearest to `color`: 0 for white paper, 1 for black paper,
/// 2 for red, 3 for blue.
pub fn rgb_to_ppm_frame_pixel(color: &RgbWrapper) -> (index: usize)
    ensures
        is_nearest(PPM_FRAME_PALETTE@, *color, index as int),
        index == spec_nearest_index(PPM_FRAME_PALETTE@, *color),
        index < 4,
{
    let palette = PPM_FRAME_PALETTE;
    let index = nearest_index(palette.as_slice(), color);
    index
}

} // verus!

//! Colours and rasters as plain values.

use vstd::prelude::*;
use crate::error::PpmError;
use crate::ppm::constants::{PPM_FRAME_PALETTE, PPM_THUMBNAIL_PALETTE};
use crate::utils::color_utils::{
    is_nearest, rgb_to_ppm_frame_pixel, single_rgb_to_thumbnail_pixel, spec_frame_color,
    spec_nearest_index, spec_palette_color, spec_thumbnail_color,
};

verus! {

/// The size of the threshold map used for ordered dithering.
#[derive(Debug, Clone, Copy, PartialEq, Eq, PartialOrd, Ord, Structural)]
pub enum DitherType {
    Bayer4x4,
    Bayer8x8,
}

impl Default for DitherType {
    fn default() -> (d: Self)
        ensures
            d == DitherType::Bayer8x8,
    {
        DitherType::Bayer8x8
    }
}

/// An opaque colour.
#[derive(Debug, Clone, Copy, PartialEq, Eq, Structural)]
pub struct RgbWrapper {
    pub r: u8,
    pub g: u8,
    pub b: u8,
}

impl Default for RgbWrapper {
    fn default() -> (c: Self)
        ensures
            c == (RgbWrapper { r: 0, g: 0, b: 0 }),
    {
        RgbWrapper { r: 0, g: 0, b: 0 }
    }
}

impl RgbWrapper {
    /// The colour with the given channels.
    pub fn new(r: u8, g: u8, b: u8) -> (c: RgbWrapper)
        ensures
            c == (RgbWrapper { r, g, b }),
    {
        RgbWrapper { r, g, b }
    }

    /// The square of the Euclidean distance between two colours.
    pub open spec fn spec_distance_squared(self, other: RgbWrapper) -> int {
        (self.r - other.r) * (self.r - other.r) + (self.g - other.g) * (self.g - other.g) + (self.b
            - other.b) * (self.b - other.b)
    }

    /// The square of the Euclidean distance between two colours. The nearest colour of a
    /// palette is the one for which it is least.
    pub fn distance_squared(&self, other: &RgbWrapper) -> (d: u32)
        ensures
            d == self.spec_distance_squared(*other),
            d <= 195075,
    {
        let r: i32 = self.r as i32 - other.r as i32;
        let g: i32 = self.g as i32 - other.g as i32;
        let b: i32 = self.b as i32 - other.b as i32;
        assert(-255 <= r <= 255 && -255 <= g <= 255 && -255 <= b <= 255);
        assert(0 <= r * r <= 65025) by (nonlinear_arith)
            requires
                -255 <= r <= 255,
        ;
        assert(0 <= g * g <= 65025) by (nonlinear_arith)
            requires
                -255 <= g <= 255,
        ;
        assert(0 <= b * b <= 65025) by (nonlinear_arith)
            requires
                -255 <= b <= 255,
        ;
        (r * r + g * g + b * b) as u32
    }
}

/// The bytes of an image of `width` by `height` pixels resized to `new_width` by
/// `new_height` pixels with the nearest-neighbour filter.
pub uninterp spec fn spec_resize_nearest(
    pixels: Seq<u8>,
    width: u32,
    height: u32,
    new_width: u32,
    new_height: u32,
) -> Seq<u8>;

/// The bytes of an image after ordered dithering with the threshold map of the given level.
pub uninterp spec fn spec_ordered_dither(pixels: Seq<u8>, width: u32, height: u32, level: u32) -> Seq<
    u8,
>;

/// The largest width and height that the outside filters are handed.
pub const MAX_FILTER_SIDE: u32 = 0xFFFF;

/// Calls `image::imageops::resize` with `FilterType::Nearest` on the raster given by its
/// bytes and size, and hands back the bytes of the result. The contract names the result and
/// claims its length: the function returns an image of the size asked for, four bytes for
/// each pixel. The sizes are kept between 1 and 65535, within which the function's source
/// reads no pixel outside its input.
#[verifier::external_body]
fn resize_nearest(pixels: &Vec<u8>, width: u32, height: u32, new_width: u32, new_height: u32) -> (out:
    Vec<u8>)
    requires
        pixels@.len() == 4 * (width * height),
        1 <= width <= MAX_FILTER_SIDE,
        1 <= height <= MAX_FILTER_SIDE,
        1 <= new_width <= MAX_FILTER_SIDE,
        1 <= new_height <= MAX_FILTER_SIDE,
    ensures
        out@ == spec_resize_nearest(pixels@, width, height, new_width, new_height),
        out@.len() == 4 * (new_width * new_height),
{
    let source = image::RgbaImage::from_raw(width, height, pixels.clone()).unwrap();
    let filter = image::imageops::FilterType::Nearest;
    image::imageops::resize(&source, new_width, new_height, filter).into_raw()
}

/// Calls `dithord::OrderedDither::ordered_dither` with `dithord::ThresholdMap::level(level)`
/// on the raster given by its bytes and size, and hands back the bytes of the result as
/// four bytes for each pixel. The contract names the result and claims its length: the
/// function maps each pixel of the image to a pixel, so the size stays.
#[verifier::external_body]
fn ordered_dither(pixels: &Vec<u8>, width: u32, height: u32, level: u32) -> (out: Vec<u8>)
    requires
        pixels@.len() == 4 * (width * height),
        1 <= width <= MAX_FILTER_SIDE,
        1 <= height <= MAX_FILTER_SIDE,
        level <= 2,
    ensures
        out@ == spec_ordered_dither(pixels@, width, height, level),
        out@.len() == 4 * (width * height),
{
    let source = image::RgbaImage::from_raw(width, height, pixels.clone()).unwrap();
    let map = dithord::ThresholdMap::level(level);
    let dithered = dithord::OrderedDither::ordered_dither(&image::DynamicImage::ImageRgba8(source), &map);
    dithered.to_rgba8().into_raw()
}

/// The palette that an image is mapped to.
#[derive(Debug, Clone, Copy, PartialEq, Eq, Structural)]
pub enum ColorMapKind {
    Thumbnail,
    Frame,
}

/// The colours of a palette.
pub open spec fn spec_palette(color_map: ColorMapKind) -> Seq<[u8; 3]> {
    match color_map {
        ColorMapKind::Thumbnail => PPM_THUMBNAIL_PALETTE@,
        ColorMapKind::Frame => PPM_FRAME_PALETTE@,
    }
}

/// The colour of the palette that stands for `color`: the first nearest one.
pub open spec fn spec_map_color(color_map: ColorMapKind, color: RgbWrapper) -> RgbWrapper {
    spec_palette_color(
        spec_palette(color_map),
        spec_nearest_index(spec_palette(color_map), color),
    )
}

/// Byte `at` of a raster mapped to a palette: the nearest colour of the palette in place of
/// red, green and blue, and full opacity.
pub open spec fn spec_palettize_byte(pixels: Seq<u8>, color_map: ColorMapKind, at: int) -> u8 {
    let k = at / 4;
    let mapped = spec_map_color(
        color_map,
        RgbWrapper { r: pixels[4 * k], g: pixels[4 * k + 1], b: pixels[4 * k + 2] },
    );
    if at % 4 == 0 {
        mapped.r
    } else if at % 4 == 1 {
        mapped.g
    } else if at % 4 == 2 {
        mapped.b
    } else {
        255u8
    }
}

/// A raster mapped to a palette.
pub open spec fn spec_palettize(pixels: Seq<u8>, color_map: ColorMapKind) -> Seq<u8> {
    Seq::new(pixels.len(), |at: int| spec_palettize_byte(pixels, color_map, at))
}

/// The level of the threshold map: 1 for a map of 4 by 4, 2 for one of 8 by 8.
pub open spec fn spec_dither_level(dither_type: DitherType) -> u32 {
    match dither_type {
        DitherType::Bayer4x4 => 1,
        DitherType::Bayer8x8 => 2,
    }
}

/// The palette of the thumbnail as a colour map.
#[derive(Debug, Clone, Copy)]
pub struct PPMThumbnailColorMap {}

/// The palette of the frames as a colour map.
#[derive(Debug, Clone, Copy)]
pub struct PPMFrameColorMap {}

impl PPMThumbnailColorMap {
    /// The index of the thumbnail colour nearest to `color`.
    pub fn index_of(&self, color: &RgbWrapper) -> (index: usize)
        ensures
            index == spec_nearest_index(PPM_THUMBNAIL_PALETTE@, *color),
            is_nearest(PPM_THUMBNAIL_PALETTE@, *color, index as int),
    {
        single_rgb_to_thumbnail_pixel(color)
    }

    /// The thumbnail colour with the index `idx`, if there is one.
    pub fn lookup(&self, idx: usize) -> (color: Option<RgbWrapper>)
        ensures
            idx < 16 ==> color == Some(spec_thumbnail_color(idx as int)),
            idx >= 16 ==> color is None,
    {
        if idx >= 16 {
            return None;
        }
        Some(
            RgbWrapper::new(
                PPM_THUMBNAIL_PALETTE[idx][0],
                PPM_THUMBNAIL_PALETTE[idx][1],
                PPM_THUMBNAIL_PALETTE[idx][2],
            ),
        )
    }

    /// The map can give the colour of an index.
    pub fn has_lookup(&self) -> (yes: bool)
        ensures
            yes,
    {
        true
    }

    /// Replaces `color` by the thumbnail colour nearest to it.
    pub fn map_color(&self, color: &mut RgbWrapper)
        ensures
            *final(color) == spec_map_color(ColorMapKind::Thumbnail, *old(color)),
    {
        let index = self.index_of(color);
        match self.lookup(index) {
            Some(mapped) => {
                *color = mapped;
            },
            None => {},
        }
    }
}

impl PPMFrameColorMap {
    /// The index of the frame colour nearest to `color`.
    pub fn index_of(&self, color: &RgbWrapper) -> (index: usize)
        ensures
            index == spec_nearest_index(PPM_FRAME_PALETTE@, *color),
            is_nearest(PPM_FRAME_PALETTE@, *color, index as int),
    {
        rgb_to_ppm_frame_pixel(color)
    }

    /// The frame colour with the index `idx`, if there is one: white paper, black paper, red
    /// and blue.
    pub fn lookup(&self, idx: usize) -> (color: Option<RgbWrapper>)
        ensures
            idx < 4 ==> color == Some(spec_frame_color(idx as int)),
            idx >= 4 ==> color is None,
    {
        if idx >= 4 {
            return None;
        }
        Some(
            RgbWrapper::new(
                PPM_FRAME_PALETTE[idx][0],
                PPM_FRAME_PALETTE[idx][1],
                PPM_FRAME_PALETTE[idx][2],
            ),
        )
    }

    /// The map can give the colour of an index.
    pub fn has_lookup(&self) -> (yes: bool)
        ensures
            yes,
    {
        true
    }

    /// Replaces `color` by the frame colour nearest to it.
    pub fn map_color(&self, color: &mut RgbWrapper)
        ensures
            *final(color) == spec_map_color(ColorMapKind::Frame, *old(color)),
    {
        let index = self.index_of(color);
        match self.lookup(index) {
            Some(mapped) => {
                *color = mapped;
            },
            None => {},
        }
    }
}

/// A raster of opaque or blank pixels, four bytes each: red, green, blue and alpha, row after
/// row from the top.
#[derive(Debug)]
pub struct ImageWrapper {
    pub width: u32,
    pub height: u32,
    pub pixels: Vec<u8>,
}

impl Clone for ImageWrapper {
    fn clone(&self) -> (image: Self)
        ensures
            image.width == self.width,
            image.height == self.height,
            image.pixels@ == self.pixels@,
    {
        ImageWrapper { width: self.width, height: self.height, pixels: self.pixels.clone() }
    }
}

impl ImageWrapper {
    /// The raster holds four bytes for each pixel.
    pub open spec fn wf(&self) -> bool {
        self.pixels@.len() == 4 * (self.width * self.height)
    }

    /// Where the four bytes of the pixel at (`x`, `y`) begin.
    pub open spec fn spec_offset(&self, x: int, y: int) -> int {
        4 * (y * self.width + x)
    }

    /// The colour of the pixel at (`x`, `y`), without its alpha.
    pub open spec fn spec_pixel(&self, x: int, y: int) -> RgbWrapper {
        RgbWrapper {
            r: self.pixels@[self.spec_offset(x, y)],
            g: self.pixels@[self.spec_offset(x, y) + 1],
            b: self.pixels@[self.spec_offset(x, y) + 2],
        }
    }

    /// A raster of the given size whose bytes are all zero.
    pub fn new(width: u32, height: u32) -> (image: ImageWrapper)
        requires
            4 * (width * height) <= usize::MAX,
        ensures
            image.wf(),
            image.width == width,
            image.height == height,
            forall|i: int| 0 <= i < image.pixels@.len() ==> image.pixels@[i] == 0,
    {
        assert(0 <= width * height) by (nonlinear_arith);
        let count: usize = (width as usize) * (height as usize);
        ImageWrapper { width, height, pixels: vec![0u8; 4 * count] }
    }

    /// Whether the raster holds four bytes for each pixel.
    pub fn has_pixels(&self) -> (ok: bool)
        ensures
            ok == self.wf(),
    {
        let len = self.pixels.len();
        assert(0 <= self.width * self.height <= 0xFFFF_FFFF * 0xFFFF_FFFF) by (nonlinear_arith)
            requires
                0 <= self.width <= 0xFFFF_FFFF,
                0 <= self.height <= 0xFFFF_FFFF,
        ;
        len % 4 == 0 && (len / 4) as u64 == self.width as u64 * self.height as u64
    }

    /// Where the four bytes of the pixel at (`x`, `y`) begin.
    fn offset(&self, x: u32, y: u32) -> (at: usize)
        requires
            self.wf(),
            x < self.width,
            y < self.height,
        ensures
            at == self.spec_offset(x as int, y as int),
            at + 4 <= self.pixels@.len(),
    {
        assert(self.pixels.len() == self.pixels@.len());
        let width = self.width;
        let height = self.height;
        assert(0 <= y * width && y * width + x + 1 <= width * height) by (nonlinear_arith)
            requires
                0 <= x < width,
                0 <= y < height,
        ;
        4 * ((y as usize) * (width as usize) + (x as usize))
    }

    /// Paints the pixel at (`x`, `y`) with `color`, fully opaque.
    pub fn set_pixel(&mut self, x: u32, y: u32, color: &RgbWrapper) -> (r: Result<(), PpmError>)
        ensures
            final(self).wf() == old(self).wf(),
            final(self).width == old(self).width,
            final(self).height == old(self).height,
            old(self).wf()
                && x < old(self).width
                && y < old(self).height ==>
                r is Ok
                && final(self).pixels@ == old(self).pixels@.update(old(self).spec_offset(x as int, y as int), color.r).update(
                old(self).spec_offset(x as int, y as int) + 1,
                color.g,
            ).update(old(self).spec_offset(x as int, y as int) + 2, color.b).update(
                old(self).spec_offset(x as int, y as int) + 3,
                255u8,
            ),
            !(old(self).wf() && x < old(self).width && y < old(self).height) ==> r == Err::<
                (),
                PpmError,
            >(PpmError::Bounds) && final(self).pixels@ == old(self).pixels@,
    {
        if !self.has_pixels() || x >= self.width || y >= self.height {
            return Err(PpmError::Bounds);
        }
        let at = self.offset(x, y);
        self.pixels.set(at, color.r);
        self.pixels.set(at + 1, color.g);
        self.pixels.set(at + 2, color.b);
        self.pixels.set(at + 3, 255);
        Ok(())
    }

    /// The colour of the pixel at (`x`, `y`).
    pub fn get_pixel(&self, x: u32, y: u32) -> (r: Result<RgbWrapper, PpmError>)
        ensures
            self.wf() && x < self.width && y < self.height ==> r == Ok::<RgbWrapper, PpmError>(
                self.spec_pixel(x as int, y as int),
            ),
            !(self.wf() && x < self.width && y < self.height) ==> r == Err::<
                RgbWrapper,
                PpmError,
            >(PpmError::Bounds),
    {
        if !self.has_pixels() || x >= self.width || y >= self.height {
            return Err(PpmError::Bounds);
        }
        let at = self.offset(x, y);
        Ok(RgbWrapper::new(self.pixels[at], self.pixels[at + 1], self.pixels[at + 2]))
    }

    /// The colours of all pixels, row after row.
    #[verifier::rlimit(50)]
    pub fn get_pixels(&self) -> (r: Result<Vec<RgbWrapper>, PpmError>)
        ensures
            self.wf() ==> r is Ok && r->Ok_0@.len() == self.width * self.height && forall|i: int|
                0 <= i < self.width * self.height ==> #[trigger] r->Ok_0@[i] == (RgbWrapper {
                    r: self.pixels@[4 * i],
                    g: self.pixels@[4 * i + 1],
                    b: self.pixels@[4 * i + 2],
                }),
            !self.wf() ==> r == Err::<Vec<RgbWrapper>, PpmError>(PpmError::Bounds),
    {
        if !self.has_pixels() {
            return Err(PpmError::Bounds);
        }
        let len = self.pixels.len();
        let count = len / 4;
        assert(count == self.width * self.height);
        let mut out: Vec<RgbWrapper> = Vec::with_capacity(count);
        let mut i: usize = 0;
        while i < count
            invariant
                i <= count,
                count * 4 == self.pixels@.len(),
                self.pixels@.len() <= usize::MAX,
                out@.len() == i,
                forall|k: int|
                    0 <= k < i ==> #[trigger] out@[k] == (RgbWrapper {
                        r: self.pixels@[4 * k],
                        g: self.pixels@[4 * k + 1],
                        b: self.pixels@[4 * k + 2],
                    }),
            decreases count - i,
        {
            out.push(
                RgbWrapper::new(self.pixels[4 * i], self.pixels[4 * i + 1], self.pixels[4 * i + 2]),
            );
            i = i + 1;
        }
        Ok(out)
    }

    /// Whether the outside filters can be handed this raster: it holds its pixels and each
    /// side is between 1 and 65535.
    pub open spec fn filterable(&self) -> bool {
        &&& self.wf()
        &&& 1 <= self.width <= MAX_FILTER_SIDE
        &&& 1 <= self.height <= MAX_FILTER_SIDE
    }

    /// Whether the outside filters can be handed this raster.
    pub fn is_filterable(&self) -> (ok: bool)
        ensures
            ok == self.filterable(),
    {
        if self.width < 1 || self.width > MAX_FILTER_SIDE || self.height < 1 || self.height
            > MAX_FILTER_SIDE {
            return false;
        }
        assert(self.width * self.height <= 0xFFFF * 0xFFFF) by (nonlinear_arith)
            requires
                self.width <= 0xFFFF,
                self.height <= 0xFFFF,
        ;
        let count: u64 = 4 * (self.width as u64 * self.height as u64);
        self.pixels.len() as u64 == count
    }

    /// The raster resized by nearest neighbour to one pixel more than `width` by one pixel
    /// more than `height`, so that every pixel up to (`width`, `height`) has a neighbour to
    /// its right and below. `Bounds` where a side of the raster or of the result is not
    /// between 1 and 65535, or the raster does not hold its pixels.
    pub fn resize(&self, width: u32, height: u32) -> (r: Result<ImageWrapper, PpmError>)
        ensures
            self.filterable() && width < MAX_FILTER_SIDE && height < MAX_FILTER_SIDE ==> r is Ok
                && r->Ok_0.wf() && r->Ok_0.width == width + 1 && r->Ok_0.height == height + 1
                && r->Ok_0.pixels@ == spec_resize_nearest(
                self.pixels@,
                self.width,
                self.height,
                (width + 1) as u32,
                (height + 1) as u32,
            ),
            !(self.filterable() && width < MAX_FILTER_SIDE && height < MAX_FILTER_SIDE) ==> r
                == Err::<ImageWrapper, PpmError>(PpmError::Bounds),
    {
        if !self.is_filterable() || width >= MAX_FILTER_SIDE || height >= MAX_FILTER_SIDE {
            return Err(PpmError::Bounds);
        }
        let pixels = resize_nearest(&self.pixels, self.width, self.height, width + 1, height + 1);
        Ok(ImageWrapper { width: width + 1, height: height + 1, pixels })
    }

    /// The raster with every pixel replaced by the nearest colour of the palette, fully
    /// opaque. `Bounds` where the raster does not hold its pixels.
    #[verifier::rlimit(50)]
    pub fn palettize(&self, color_map: ColorMapKind) -> (r: Result<ImageWrapper, PpmError>)
        ensures
            self.wf() ==> r is Ok && r->Ok_0.wf() && r->Ok_0.width == self.width && r->Ok_0.height
                == self.height && r->Ok_0.pixels@ == spec_palettize(self.pixels@, color_map),
            !self.wf() ==> r == Err::<ImageWrapper, PpmError>(PpmError::Bounds),
    {
        if !self.has_pixels() {
            return Err(PpmError::Bounds);
        }
        let len = self.pixels.len();
        let count = len / 4;
        let mut pixels: Vec<u8> = Vec::with_capacity(len);
        let mut k: usize = 0;
        while k < count
            invariant
                k <= count,
                len == self.pixels@.len(),
                len == 4 * count,
                pixels@.len() == 4 * k,
                forall|at: int|
                    0 <= at < 4 * k ==> #[trigger] pixels@[at] == spec_palettize_byte(
                        self.pixels@,
                        color_map,
                        at,
                    ),
            decreases count - k,
        {
            let mut color = RgbWrapper::new(
                self.pixels[4 * k],
                self.pixels[4 * k + 1],
                self.pixels[4 * k + 2],
            );
            match color_map {
                ColorMapKind::Thumbnail => {
                    PPMThumbnailColorMap {  }.map_color(&mut color);
                },
                ColorMapKind::Frame => {
                    PPMFrameColorMap {  }.map_color(&mut color);
                },
            }
            pixels.push(color.r);
            pixels.push(color.g);
            pixels.push(color.b);
            pixels.push(255);
            assert forall|at: int| 4 * k <= at < 4 * k + 4 implies #[trigger] pixels@[at]
                == spec_palettize_byte(self.pixels@, color_map, at) by {
                assert(at / 4 == k as int);
            }
            k = k + 1;
        }
        assert(pixels@ =~= spec_palettize(self.pixels@, color_map));
        Ok(ImageWrapper { width: self.width, height: self.height, pixels })
    }

    /// The raster mapped to the palette and then dithered with the ordered threshold map of
    /// the given size. `Bounds` where a side of the raster is not between 1 and 65535, or the
    /// raster does not hold its pixels.
    pub fn dither(&self, dither_type: DitherType, color_map: ColorMapKind) -> (r: Result<
        ImageWrapper,
        PpmError,
    >)
        ensures
            self.filterable() ==> r is Ok && r->Ok_0.wf() && r->Ok_0.width == self.width
                && r->Ok_0.height == self.height && r->Ok_0.pixels@ == spec_ordered_dither(
                spec_palettize(self.pixels@, color_map),
                self.width,
                self.height,
                spec_dither_level(dither_type),
            ),
            !self.filterable() ==> r == Err::<ImageWrapper, PpmError>(PpmError::Bounds),
    {
        if !self.is_filterable() {
            return Err(PpmError::Bounds);
        }
        let level: u32 = match dither_type {
            DitherType::Bayer4x4 => 1,
            DitherType::Bayer8x8 => 2,
        };
        let mapped = match self.palettize(color_map) {
            Ok(m) => m,
            Err(e) => {
                return Err(e);
            },
        };
        let pixels = ordered_dither(&mapped.pixels, self.width, self.height, level);
        Ok(ImageWrapper { width: self.width, height: self.height, pixels })
    }

    /// A copy of the raster's bytes.
    pub fn get_raw_pixels(&self) -> (raw: Vec<u8>)
        ensures
            raw@ == self.pixels@,
    {
        self.pixels.clone()
    }
}

} // verus!

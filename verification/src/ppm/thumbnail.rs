//! The thumbnail: 64 by 48 pixels of sixteen colours, stored as 48 tiles of 8 by 8 pixels.

use vstd::prelude::*;
use crate::error::PpmError;
use crate::ppm::constants::PPM_THUMBNAIL_PALETTE;
use crate::utils::color_utils::{
    rgb_to_thumbnail_pixel, spec_nearest_index, spec_thumbnail_color, thumbnail_pixel_to_rgb,
};
use crate::utils::image_utils::{ImageWrapper, RgbWrapper, spec_resize_nearest};

verus! {

/// Bytes in a tile: two pixels in each.
pub const TILE_BYTES: usize = 32;

/// Tiles in the thumbnail: six rows of eight.
pub const TILE_COUNT: usize = 48;

/// Width of the thumbnail in pixels.
pub const THUMBNAIL_WIDTH: u32 = 64;

/// Height of the thumbnail in pixels.
pub const THUMBNAIL_HEIGHT: u32 = 48;

/// The colour index of the pixel at (`x`, `y`) of a tile: each row of a tile takes four
/// bytes, and each byte holds the left pixel in its low half and the right one in its high
/// half.
pub open spec fn spec_tile_index(pixels: Seq<u8>, x: int, y: int) -> int {
    let byte = pixels[y * 4 + x / 2] as int;
    if x % 2 == 0 {
        byte % 16
    } else {
        byte / 16
    }
}

/// The colour of the pixel at (`x`, `y`) of the thumbnail: the tiles go row by row, eight in
/// a row.
pub open spec fn spec_thumbnail_pixel(tiles: Seq<Seq<u8>>, x: int, y: int) -> RgbWrapper {
    spec_thumbnail_color(spec_tile_index(tiles[(y / 8) * 8 + x / 8], x % 8, y % 8))
}

/// Byte `at` of the painted thumbnail: four bytes for each pixel, row after row.
pub open spec fn spec_thumbnail_byte(tiles: Seq<Seq<u8>>, at: int) -> u8 {
    let color = spec_thumbnail_pixel(tiles, (at / 4) % 64, (at / 4) / 64);
    if at % 4 == 0 {
        color.r
    } else if at % 4 == 1 {
        color.g
    } else if at % 4 == 2 {
        color.b
    } else {
        255u8
    }
}

/// Byte `at` of a painted tile: four bytes for each pixel, row after row.
pub open spec fn spec_tile_byte(pixels: Seq<u8>, at: int) -> u8 {
    let color = spec_thumbnail_color(spec_tile_index(pixels, (at / 4) % 8, (at / 4) / 8));
    if at % 4 == 0 {
        color.r
    } else if at % 4 == 1 {
        color.g
    } else if at % 4 == 2 {
        color.b
    } else {
        255u8
    }
}

/// The colour of the pixel at (`x`, `y`) of a raster given by its bytes and width.
pub open spec fn spec_raster_color(pixels: Seq<u8>, width: int, x: int, y: int) -> RgbWrapper {
    RgbWrapper {
        r: pixels[4 * (y * width + x)],
        g: pixels[4 * (y * width + x) + 1],
        b: pixels[4 * (y * width + x) + 2],
    }
}

/// Byte `j` of tile `i` of the thumbnail taken from a raster: the byte takes the pixel at
/// column `j % 8` and row `j / 8` of the tile's place in the raster and its right neighbour,
/// each as the index of the nearest thumbnail colour, the first in the low half.
pub open spec fn spec_quantized_byte(pixels: Seq<u8>, width: int, i: int, j: int) -> u8 {
    let x = (i % 8) * 8 + j % 8;
    let y = (i / 8) * 8 + j / 8;
    (spec_nearest_index(PPM_THUMBNAIL_PALETTE@, spec_raster_color(pixels, width, x, y)) + 16
        * spec_nearest_index(
        PPM_THUMBNAIL_PALETTE@,
        spec_raster_color(pixels, width, x + 1, y),
    )) as u8
}

/// The tiles of the thumbnail taken from a raster that is at least 65 pixels wide and 44
/// high.
pub open spec fn spec_quantize(pixels: Seq<u8>, width: int) -> Seq<Seq<u8>> {
    Seq::new(
        TILE_COUNT as nat,
        |i: int| Seq::new(TILE_BYTES as nat, |j: int| spec_quantized_byte(pixels, width, i, j)),
    )
}

/// One tile of the thumbnail.
#[derive(Debug)]
pub struct PPMThumbnailTile {
    pub pixels: Vec<u8>,
}

impl Clone for PPMThumbnailTile {
    fn clone(&self) -> (tile: Self)
        ensures
            tile.pixels@ == self.pixels@,
    {
        PPMThumbnailTile { pixels: self.pixels.clone() }
    }
}

impl Default for PPMThumbnailTile {
    fn default() -> (tile: Self)
        ensures
            tile.pixels@.len() == 0,
    {
        PPMThumbnailTile { pixels: Vec::new() }
    }
}

impl PPMThumbnailTile {
    /// Paints the tile: 8 by 8 opaque pixels. `Bounds` where the tile does not hold 32 bytes.
    #[verifier::rlimit(50)]
    pub fn get_image(&self) -> (r: Result<ImageWrapper, PpmError>)
        ensures
            self.pixels@.len() == TILE_BYTES ==> r is Ok && r->Ok_0.wf() && r->Ok_0.width == 8
                && r->Ok_0.height == 8 && r->Ok_0.pixels@ == Seq::new(
                256,
                |at: int| spec_tile_byte(self.pixels@, at),
            ),
            self.pixels@.len() != TILE_BYTES ==> r == Err::<ImageWrapper, PpmError>(
                PpmError::Bounds,
            ),
    {
        if self.pixels.len() != 32 {
            return Err(PpmError::Bounds);
        }
        let mut pixels: Vec<u8> = Vec::with_capacity(256);
        let mut k: usize = 0;
        while k < 64
            invariant
                k <= 64,
                self.pixels@.len() == 32,
                pixels@.len() == 4 * k,
                forall|at: int|
                    0 <= at < 4 * k ==> #[trigger] pixels@[at] == spec_tile_byte(self.pixels@, at),
            decreases 64 - k,
        {
            let x = k % 8;
            let y = k / 8;
            let byte = self.pixels[y * 4 + x / 2];
            let colors = match thumbnail_pixel_to_rgb(byte) {
                Ok(c) => c,
                Err(e) => {
                    return Err(PpmError::Bounds);
                },
            };
            let color = if x % 2 == 0 {
                colors.0
            } else {
                colors.1
            };
            pixels.push(color.r);
            pixels.push(color.g);
            pixels.push(color.b);
            pixels.push(255);
            assert forall|at: int| 4 * k <= at < 4 * k + 4 implies #[trigger] pixels@[at]
                == spec_tile_byte(self.pixels@, at) by {
                assert(at / 4 == k as int);
            }
            k = k + 1;
        }
        assert(pixels@ =~= Seq::new(256, |at: int| spec_tile_byte(self.pixels@, at)));
        assert(4 * (8 * 8) == 256) by (nonlinear_arith);
        Ok(ImageWrapper { width: 8, height: 8, pixels })
    }
}

/// The thumbnail.
#[derive(Debug)]
pub struct PPMThumbnail {
    pub tiles: Vec<PPMThumbnailTile>,
}

impl View for PPMThumbnail {
    type V = Seq<Seq<u8>>;

    open spec fn view(&self) -> Seq<Seq<u8>> {
        Seq::new(self.tiles@.len(), |i: int| self.tiles@[i].pixels@)
    }
}

impl Clone for PPMThumbnail {
    fn clone(&self) -> (copy: Self)
        ensures
            copy@ == self@,
    {
        let mut tiles: Vec<PPMThumbnailTile> = Vec::with_capacity(self.tiles.len());
        let mut i: usize = 0;
        while i < self.tiles.len()
            invariant
                i <= self.tiles@.len(),
                tiles@.len() == i,
                forall|k: int| 0 <= k < i ==> (#[trigger] tiles@[k]).pixels@ == self.tiles@[k].pixels@,
            decreases self.tiles@.len() - i,
        {
            tiles.push(self.tiles[i].clone());
            i = i + 1;
        }
        let copy = PPMThumbnail { tiles };
        assert(copy@ =~= self@);
        copy
    }
}

impl Default for PPMThumbnail {
    fn default() -> (thumbnail: Self)
        ensures
            thumbnail@.len() == 0,
    {
        PPMThumbnail { tiles: Vec::new() }
    }
}

impl PPMThumbnail {
    /// The thumbnail holds 48 tiles of 32 bytes.
    pub open spec fn wf(&self) -> bool {
        &&& self@.len() == TILE_COUNT
        &&& forall|i: int| 0 <= i < self@.len() ==> (#[trigger] self@[i]).len() == TILE_BYTES
    }

    /// Whether the thumbnail holds 48 tiles of 32 bytes.
    pub fn check_shape(&self) -> (ok: bool)
        ensures
            ok == self.wf(),
    {
        if self.tiles.len() != 48 {
            return false;
        }
        let mut i: usize = 0;
        while i < 48
            invariant
                i <= 48,
                self.tiles@.len() == 48,
                forall|k: int| 0 <= k < i ==> (#[trigger] self@[k]).len() == TILE_BYTES,
            decreases 48 - i,
        {
            if self.tiles[i].pixels.len() != 32 {
                assert(self@[i as int].len() != TILE_BYTES);
                return false;
            }
            i = i + 1;
        }
        true
    }

    /// Paints the thumbnail: 64 by 48 opaque pixels. `Bounds` where the thumbnail does not
    /// hold 48 tiles of 32 bytes.
    #[verifier::rlimit(50)]
    pub fn get_image(&self) -> (r: Result<ImageWrapper, PpmError>)
        ensures
            self.wf() ==> r is Ok && r->Ok_0.wf() && r->Ok_0.width == THUMBNAIL_WIDTH
                && r->Ok_0.height == THUMBNAIL_HEIGHT && r->Ok_0.pixels@ == Seq::new(
                12288,
                |at: int| spec_thumbnail_byte(self@, at),
            ),
            !self.wf() ==> r == Err::<ImageWrapper, PpmError>(PpmError::Bounds),
    {
        if !self.check_shape() {
            return Err(PpmError::Bounds);
        }
        let mut pixels: Vec<u8> = Vec::with_capacity(12288);
        let mut k: usize = 0;
        while k < 3072
            invariant
                k <= 3072,
                self.wf(),
                pixels@.len() == 4 * k,
                forall|at: int|
                    0 <= at < 4 * k ==> #[trigger] pixels@[at] == spec_thumbnail_byte(self@, at),
            decreases 3072 - k,
        {
            let x = k % 64;
            let y = k / 64;
            let tile = (y / 8) * 8 + x / 8;
            assert(self@[tile as int].len() == TILE_BYTES);
            let byte = self.tiles[tile].pixels[(y % 8) * 4 + (x % 8) / 2];
            let colors = match thumbnail_pixel_to_rgb(byte) {
                Ok(c) => c,
                Err(e) => {
                    return Err(PpmError::Bounds);
                },
            };
            let color = if (x % 8) % 2 == 0 {
                colors.0
            } else {
                colors.1
            };
            pixels.push(color.r);
            pixels.push(color.g);
            pixels.push(color.b);
            pixels.push(255);
            assert forall|at: int| 4 * k <= at < 4 * k + 4 implies #[trigger] pixels@[at]
                == spec_thumbnail_byte(self@, at) by {
                assert(at / 4 == k as int);
            }
            k = k + 1;
        }
        assert(pixels@ =~= Seq::new(12288, |at: int| spec_thumbnail_byte(self@, at)));
        assert(4 * (64 * 48) == 12288) by (nonlinear_arith);
        Ok(ImageWrapper { width: 64, height: 48, pixels })
    }

    /// The tiles of the thumbnail taken from `image`, which is at least 65 pixels wide and 44
    /// high: each pixel becomes the index of the nearest thumbnail colour.
    #[verifier::rlimit(50)]
    pub fn quantize(image: &ImageWrapper) -> (r: Result<Vec<PPMThumbnailTile>, PpmError>)
        ensures
            image.wf() && image.width >= 65 && image.height >= 44 ==> r is Ok && (PPMThumbnail {
                tiles: r->Ok_0,
            })@ == spec_quantize(image.pixels@, image.width as int),
            !(image.wf() && image.width >= 65 && image.height >= 44) ==> r == Err::<
                Vec<PPMThumbnailTile>,
                PpmError,
            >(PpmError::Bounds),
    {
        if !image.has_pixels() || image.width < 65 || image.height < 44 {
            return Err(PpmError::Bounds);
        }
        let mut tiles: Vec<PPMThumbnailTile> = Vec::with_capacity(48);
        let mut i: usize = 0;
        while i < 48
            invariant
                i <= 48,
                image.wf(),
                image.width >= 65,
                image.height >= 44,
                tiles@.len() == i,
                forall|k: int|
                    0 <= k < i ==> (#[trigger] tiles@[k]).pixels@ == spec_quantize(
                        image.pixels@,
                        image.width as int,
                    )[k],
            decreases 48 - i,
        {
            let tile_x = i % 8;
            let tile_y = i / 8;
            let mut bytes: Vec<u8> = Vec::with_capacity(32);
            let mut j: usize = 0;
            while j < 32
                invariant
                    j <= 32,
                    i < 48,
                    tile_x == i % 8,
                    tile_y == i / 8,
                    image.wf(),
                    image.width >= 65,
                    image.height >= 44,
                    bytes@.len() == j,
                    forall|k: int|
                        0 <= k < j ==> #[trigger] bytes@[k] == spec_quantized_byte(
                            image.pixels@,
                            image.width as int,
                            i as int,
                            k,
                        ),
                decreases 32 - j,
            {
                let x = (tile_x * 8 + j % 8) as u32;
                let y = (tile_y * 8 + j / 8) as u32;
                let pixel1 = match image.get_pixel(x, y) {
                    Ok(p) => p,
                    Err(e) => {
                        return Err(PpmError::Bounds);
                    },
                };
                let pixel2 = match image.get_pixel(x + 1, y) {
                    Ok(p) => p,
                    Err(e) => {
                        return Err(PpmError::Bounds);
                    },
                };
                assert(pixel1 == spec_raster_color(
                    image.pixels@,
                    image.width as int,
                    x as int,
                    y as int,
                ));
                assert(pixel2 == spec_raster_color(
                    image.pixels@,
                    image.width as int,
                    x as int + 1,
                    y as int,
                ));
                bytes.push(rgb_to_thumbnail_pixel(&pixel1, &pixel2));
                j = j + 1;
            }
            assert(bytes@ =~= spec_quantize(image.pixels@, image.width as int)[i as int]);
            tiles.push(PPMThumbnailTile { pixels: bytes });
            i = i + 1;
        }
        assert((PPMThumbnail { tiles })@ =~= spec_quantize(image.pixels@, image.width as int));
        Ok(tiles)
    }

    /// Replaces the thumbnail by `image`: the image is resized by nearest neighbour to 65 by
    /// 49 pixels, and each pixel becomes the index of the nearest thumbnail colour. `Bounds`
    /// where the image cannot be resized; the thumbnail then stays as it was.
    pub fn set_image(&mut self, image: &ImageWrapper) -> (r: Result<(), PpmError>)
        ensures
            image.filterable() ==> r is Ok && final(self)@ == spec_quantize(
                spec_resize_nearest(image.pixels@, image.width, image.height, 65, 49),
                65,
            ) && final(self).wf(),
            !image.filterable() ==> r == Err::<(), PpmError>(PpmError::Bounds) && final(self)@
                == old(self)@,
    {
        let resized = match image.resize(THUMBNAIL_WIDTH, THUMBNAIL_HEIGHT) {
            Ok(i) => i,
            Err(e) => {
                return Err(PpmError::Bounds);
            },
        };
        let tiles = match PPMThumbnail::quantize(&resized) {
            Ok(t) => t,
            Err(e) => {
                return Err(PpmError::Bounds);
            },
        };
        self.tiles = tiles;
        Ok(())
    }
}

} // verus!

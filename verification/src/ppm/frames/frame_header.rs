//! The one-byte header of a frame and the colours it selects.

use vstd::prelude::*;
use crate::error::PpmError;
use crate::ppm::constants::{PPM_COLOR_BLUE, PPM_COLOR_RED, PPM_PAPER_BLACK, PPM_PAPER_WHITE};
use crate::utils::image_utils::RgbWrapper;

verus! {

/// Bit 7 of the header: set on a frame stored whole, clear on one stored as a difference.
pub const HEADER_MASK_FRAME_TYPE: u8 = 0x80;

/// Bits 5 and 6 of the header: not zero where a translation follows the header.
pub const HEADER_MASK_TRANSLATED: u8 = 0x60;

/// Bits 3 and 4 of the header: the colour of layer 2.
pub const HEADER_MASK_LAYER_2: u8 = 0x18;

/// Bits 1 and 2 of the header: the colour of layer 1.
pub const HEADER_MASK_LAYER_1: u8 = 0x06;

/// Bit 0 of the header: set for white paper, clear for black.
pub const HEADER_MASK_PAPER: u8 = 0x01;

/// Whether a frame is stored whole or as a difference from the frame before it.
#[derive(Debug, Clone, Copy, PartialEq, Eq, Structural)]
pub enum PPMFrameType {
    Normal,
    Diffed,
}

impl Default for PPMFrameType {
    fn default() -> (t: Self)
        ensures
            t == PPMFrameType::Normal,
    {
        PPMFrameType::Normal
    }
}

/// The colour of the paper.
#[derive(Debug, Clone, Copy, PartialEq, Eq, Structural)]
pub enum PPMPaperColor {
    White,
    Black,
}

impl Default for PPMPaperColor {
    fn default() -> (c: Self)
        ensures
            c == PPMPaperColor::White,
    {
        PPMPaperColor::White
    }
}

impl PPMPaperColor {
    /// The paper's colour.
    pub open spec fn spec_rgb(self) -> RgbWrapper {
        match self {
            PPMPaperColor::White => RgbWrapper { r: 255, g: 255, b: 255 },
            PPMPaperColor::Black => RgbWrapper { r: 14, g: 14, b: 14 },
        }
    }

    /// The other paper colour.
    pub open spec fn spec_inverse(self) -> PPMPaperColor {
        match self {
            PPMPaperColor::White => PPMPaperColor::Black,
            PPMPaperColor::Black => PPMPaperColor::White,
        }
    }

    /// The position of the colour among the paper colours: 0 for white, 1 for black.
    pub fn index(&self) -> (i: usize)
        ensures
            i == match *self {
                PPMPaperColor::White => 0usize,
                PPMPaperColor::Black => 1usize,
            },
    {
        match self {
            PPMPaperColor::White => 0,
            PPMPaperColor::Black => 1,
        }
    }

    /// The paper's colour.
    pub fn get_rgb_color(&self) -> (c: RgbWrapper)
        ensures
            c == self.spec_rgb(),
    {
        match self {
            PPMPaperColor::White => RgbWrapper::new(
                PPM_PAPER_WHITE[0],
                PPM_PAPER_WHITE[1],
                PPM_PAPER_WHITE[2],
            ),
            PPMPaperColor::Black => RgbWrapper::new(
                PPM_PAPER_BLACK[0],
                PPM_PAPER_BLACK[1],
                PPM_PAPER_BLACK[2],
            ),
        }
    }
}

/// The colour of a layer.
#[derive(Debug, Clone, Copy, PartialEq, Eq, Structural)]
pub enum PPMLayerColor {
    InverseOfPaper,
    Red,
    Blue,
}

impl Default for PPMLayerColor {
    fn default() -> (c: Self)
        ensures
            c == PPMLayerColor::InverseOfPaper,
    {
        PPMLayerColor::InverseOfPaper
    }
}

impl PPMLayerColor {
    /// The layer's colour on paper of colour `paper`: the other paper colour, red or blue.
    pub open spec fn spec_rgb(self, paper: PPMPaperColor) -> RgbWrapper {
        match self {
            PPMLayerColor::InverseOfPaper => paper.spec_inverse().spec_rgb(),
            PPMLayerColor::Red => RgbWrapper { r: 255, g: 42, b: 42 },
            PPMLayerColor::Blue => RgbWrapper { r: 10, g: 57, b: 255 },
        }
    }

    /// The layer's colour on paper of colour `paper_color`.
    pub fn get_rgb_color(&self, paper_color: &PPMPaperColor) -> (c: RgbWrapper)
        ensures
            c == self.spec_rgb(*paper_color),
    {
        match self {
            PPMLayerColor::InverseOfPaper => match paper_color {
                PPMPaperColor::White => PPMPaperColor::Black.get_rgb_color(),
                PPMPaperColor::Black => PPMPaperColor::White.get_rgb_color(),
            },
            PPMLayerColor::Red => RgbWrapper::new(
                PPM_COLOR_RED[0],
                PPM_COLOR_RED[1],
                PPM_COLOR_RED[2],
            ),
            PPMLayerColor::Blue => RgbWrapper::new(
                PPM_COLOR_BLUE[0],
                PPM_COLOR_BLUE[1],
                PPM_COLOR_BLUE[2],
            ),
        }
    }
}

/// The header byte of a frame.
#[derive(Debug, Clone, Copy, PartialEq, Eq, Structural)]
pub struct PPMFrameHeader {
    pub header: u8,
}

impl Default for PPMFrameHeader {
    fn default() -> (h: Self)
        ensures
            h.header == 0,
    {
        PPMFrameHeader { header: 0 }
    }
}

impl PPMFrameHeader {
    /// How the frame is stored.
    pub open spec fn spec_frame_type(&self) -> PPMFrameType {
        if (self.header >> 7u8) & 0x1 == 0 {
            PPMFrameType::Diffed
        } else {
            PPMFrameType::Normal
        }
    }

    /// Whether a translation follows the header.
    pub open spec fn spec_is_translated(&self) -> bool {
        (self.header >> 5u8) & 0x3 != 0
    }

    /// The colour of the paper.
    pub open spec fn spec_paper_color(&self) -> PPMPaperColor {
        if self.header & 0x1 == 0 {
            PPMPaperColor::Black
        } else {
            PPMPaperColor::White
        }
    }

    /// The two-bit colour code of layer `layer`, 1 or 2.
    pub open spec fn spec_layer_code(&self, layer: u8) -> u8 {
        if layer == 1 {
            (self.header >> 1u8) & 0x3
        } else {
            (self.header >> 3u8) & 0x3
        }
    }

    /// The colour that a two-bit code selects.
    pub open spec fn spec_color_of_code(code: u8) -> PPMLayerColor {
        if code == 2 {
            PPMLayerColor::Red
        } else if code == 3 {
            PPMLayerColor::Blue
        } else {
            PPMLayerColor::InverseOfPaper
        }
    }

    /// The colour of layer `layer`, 1 or 2.
    pub open spec fn spec_layer_color(&self, layer: u8) -> PPMLayerColor {
        Self::spec_color_of_code(self.spec_layer_code(layer))
    }

    /// How the frame is stored.
    pub fn get_frame_type(&self) -> (t: PPMFrameType)
        ensures
            t == self.spec_frame_type(),
    {
        if (self.header >> 7u8) & 0x1 == 0 {
            PPMFrameType::Diffed
        } else {
            PPMFrameType::Normal
        }
    }

    /// Sets how the frame is stored; no other field changes.
    pub fn set_frame_type(&mut self, frame_type: PPMFrameType)
        ensures
            final(self).spec_frame_type() == frame_type,
            final(self).spec_is_translated() == old(self).spec_is_translated(),
            final(self).spec_paper_color() == old(self).spec_paper_color(),
            final(self).spec_layer_code(1) == old(self).spec_layer_code(1),
            final(self).spec_layer_code(2) == old(self).spec_layer_code(2),
            final(self).header == (old(self).header & 0x7F) | (if frame_type
                == PPMFrameType::Normal {
                0x80u8
            } else {
                0u8
            }),
    {
        let h = self.header;
        let value: u8 = match frame_type {
            PPMFrameType::Diffed => 0,
            PPMFrameType::Normal => 1,
        };
        let n = (h & 0x7F) | (value << 7u8);
        assert(value <= 1 ==> (n >> 7u8) & 0x1 == value && (n >> 5u8) & 0x3 == (h >> 5u8) & 0x3
            && n & 0x1 == h & 0x1 && (n >> 1u8) & 0x3 == (h >> 1u8) & 0x3 && (n >> 3u8) & 0x3 == (h
            >> 3u8) & 0x3 && (value == 1 ==> value << 7u8 == 0x80u8) && (value == 0 ==> value << 7u8
            == 0u8)) by (bit_vector)
            requires
                n == (h & 0x7F) | (value << 7u8),
        ;
        self.header = n;
    }

    /// Whether a translation follows the header.
    pub fn get_is_translated(&self) -> (translated: bool)
        ensures
            translated == self.spec_is_translated(),
    {
        (self.header >> 5u8) & 0x3 != 0
    }

    /// Sets whether a translation follows the header: the whole two-bit field is cleared,
    /// and its low bit is set where one follows. No other field changes.
    pub fn set_is_translated(&mut self, value: bool)
        ensures
            final(self).spec_is_translated() == value,
            final(self).spec_frame_type() == old(self).spec_frame_type(),
            final(self).spec_paper_color() == old(self).spec_paper_color(),
            final(self).spec_layer_code(1) == old(self).spec_layer_code(1),
            final(self).spec_layer_code(2) == old(self).spec_layer_code(2),
            final(self).header == (old(self).header & 0x9F) | (if value {
                0x20u8
            } else {
                0u8
            }),
    {
        let h = self.header;
        let bit: u8 = if value {
            1
        } else {
            0
        };
        let n = (h & 0x9F) | (bit << 5u8);
        assert(bit <= 1 ==> (n >> 5u8) & 0x3 == bit && (n >> 7u8) & 0x1 == (h >> 7u8) & 0x1 && n
            & 0x1 == h & 0x1 && (n >> 1u8) & 0x3 == (h >> 1u8) & 0x3 && (n >> 3u8) & 0x3 == (h
            >> 3u8) & 0x3 && (bit == 1 ==> bit << 5u8 == 0x20u8) && (bit == 0 ==> bit << 5u8
            == 0u8)) by (bit_vector)
            requires
                n == (h & 0x9F) | (bit << 5u8),
        ;
        self.header = n;
    }

    /// The colour of the paper.
    pub fn get_paper_color(&self) -> (c: PPMPaperColor)
        ensures
            c == self.spec_paper_color(),
    {
        if self.header & 0x1 == 0 {
            PPMPaperColor::Black
        } else {
            PPMPaperColor::White
        }
    }

    /// Sets the colour of the paper; no other field changes.
    pub fn set_paper_color(&mut self, paper_color: PPMPaperColor)
        ensures
            final(self).spec_paper_color() == paper_color,
            final(self).spec_frame_type() == old(self).spec_frame_type(),
            final(self).spec_is_translated() == old(self).spec_is_translated(),
            final(self).spec_layer_code(1) == old(self).spec_layer_code(1),
            final(self).spec_layer_code(2) == old(self).spec_layer_code(2),
            final(self).header == (old(self).header & 0xFE) | (if paper_color
                == PPMPaperColor::White {
                1u8
            } else {
                0u8
            }),
    {
        let h = self.header;
        let value: u8 = match paper_color {
            PPMPaperColor::Black => 0,
            PPMPaperColor::White => 1,
        };
        let n = (h & 0xFE) | value;
        assert(value <= 1 ==> n & 0x1 == value && (n >> 7u8) & 0x1 == (h >> 7u8) & 0x1 && (n
            >> 5u8) & 0x3 == (h >> 5u8) & 0x3 && (n >> 1u8) & 0x3 == (h >> 1u8) & 0x3 && (n >> 3u8)
            & 0x3 == (h >> 3u8) & 0x3) by (bit_vector)
            requires
                n == (h & 0xFE) | value,
        ;
        self.header = n;
    }

    /// The colour of layer `layer`. Layers are numbered 1 and 2.
    pub fn get_layer_color(&self, layer: u8) -> (r: Result<PPMLayerColor, PpmError>)
        ensures
            layer == 1 || layer == 2 ==> r == Ok::<PPMLayerColor, PpmError>(
                self.spec_layer_color(layer),
            ),
            !(layer == 1 || layer == 2) ==> r == Err::<PPMLayerColor, PpmError>(PpmError::Bounds),
    {
        let value = if layer == 1 {
            (self.header >> 1u8) & 0x3
        } else if layer == 2 {
            (self.header >> 3u8) & 0x3
        } else {
            return Err(PpmError::Bounds);
        };
        if value == 2 {
            Ok(PPMLayerColor::Red)
        } else if value == 3 {
            Ok(PPMLayerColor::Blue)
        } else {
            Ok(PPMLayerColor::InverseOfPaper)
        }
    }

    /// Sets the colour of layer `layer`; no other field changes.
    pub fn set_layer_color(&mut self, layer: u8, layer_color: PPMLayerColor) -> (r: Result<
        (),
        PpmError,
    >)
        ensures
            layer == 1 || layer == 2 ==> r is Ok && final(self).spec_layer_color(layer)
                == layer_color
                    && final(self).spec_layer_code((3 - layer) as u8) == old(self).spec_layer_code((3 - layer) as u8)
                    && final(self).spec_frame_type() == old(self).spec_frame_type()
                    && final(self).spec_is_translated() == old(self).spec_is_translated()
                    && final(self).spec_paper_color() == old(self).spec_paper_color(),
            !(layer == 1 || layer == 2) ==>
                r == Err::<(), PpmError>(PpmError::Bounds)
                && final(self).header == old(self).header,
    {
        let h = self.header;
        let value: u8 = match layer_color {
            PPMLayerColor::InverseOfPaper => 0,
            PPMLayerColor::Red => 2,
            PPMLayerColor::Blue => 3,
        };
        if layer == 1 {
            let n = (h & 0xF9) | (value << 1u8);
            assert(value <= 3 ==> (n >> 1u8) & 0x3 == value && (n >> 3u8) & 0x3 == (h >> 3u8) & 0x3
                && (n >> 7u8) & 0x1 == (h >> 7u8) & 0x1 && (n >> 5u8) & 0x3 == (h >> 5u8) & 0x3 && n
                & 0x1 == h & 0x1) by (bit_vector)
                requires
                    n == (h & 0xF9) | (value << 1u8),
            ;
            self.header = n;
            Ok(())
        } else if layer == 2 {
            let n = (h & 0xE7) | (value << 3u8);
            assert(value <= 3 ==> (n >> 3u8) & 0x3 == value && (n >> 1u8) & 0x3 == (h >> 1u8) & 0x3
                && (n >> 7u8) & 0x1 == (h >> 7u8) & 0x1 && (n >> 5u8) & 0x3 == (h >> 5u8) & 0x3 && n
                & 0x1 == h & 0x1) by (bit_vector)
                requires
                    n == (h & 0xE7) | (value << 3u8),
            ;
            self.header = n;
            Ok(())
        } else {
            Err(PpmError::Bounds)
        }
    }
}

} // verus!

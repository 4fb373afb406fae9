//! One frame of the animation: a header byte, an optional translation and two layers.

use vstd::prelude::*;
use crate::error::PpmError;
use crate::ppm::frames::animation_flags::PPMAnimationFlags;
use crate::ppm::frames::frame_header::{PPMFrameHeader, PPMFrameType};
use crate::ppm::frames::layer::{
    PPMLayer, spec_decode_lines, diff_layer, lemma_diffing_involution, lemma_lines_roundtrip,
    lemma_shape_of_view, rows_binary, rows_encodable, rows_have_shape, spec_encode_lines,
    LAYER_HEIGHT,
};
use crate::ppm::frames::line::{LineEncoding, LINE_WIDTH};
use crate::utils::cursor::{ByteCursor, lemma_concat_segment, push_bytes, spec_i8};
use crate::utils::image_utils::{ImageWrapper, RgbWrapper};

verus! {

/// Bytes that select the encodings of the lines of one layer, two bits for each line.
pub const SELECTOR_BYTES: usize = 0x30;

/// The two-bit code of line `line` in the selector block at `pos`. Each byte holds the codes
/// of four lines, the first in its two highest bits.
pub open spec fn selector_code(bytes: Seq<u8>, pos: int, line: int) -> u8 {
    (bytes[pos + line / 4] >> ((6 - 2 * (line % 4)) as u8)) & 3u8
}

/// The encodings that the selector block at `pos` assigns to the 192 lines of a layer.
pub open spec fn spec_selectors(bytes: Seq<u8>, pos: int) -> Seq<LineEncoding> {
    Seq::new(LAYER_HEIGHT as nat, |y: int| LineEncoding::of_code(selector_code(bytes, pos, y)))
}

/// A frame as its bytes give it, before the frame in front of it is taken in.
pub struct StoredFrame {
    pub header: PPMFrameHeader,
    pub translate_x: i8,
    pub translate_y: i8,
    pub encodings_1: Seq<LineEncoding>,
    pub encodings_2: Seq<LineEncoding>,
    pub layer_1: Seq<Seq<u8>>,
    pub layer_2: Seq<Seq<u8>>,
}

/// The frame stored at `pos` and the position behind it: the header byte; a signed
/// translation in x and in y where the header announces one; the selector blocks of layer 1
/// and of layer 2; the lines of layer 1; the lines of layer 2. `None` where the bytes end
/// before the frame does.
pub open spec fn spec_parse_stored(bytes: Seq<u8>, pos: int) -> Option<(StoredFrame, int)> {
    if pos + 1 > bytes.len() {
        None
    } else {
        let header = PPMFrameHeader { header: bytes[pos] };
        let start = if header.spec_is_translated() {
            pos + 3
        } else {
            pos + 1
        };
        if start + 2 * SELECTOR_BYTES > bytes.len() {
            None
        } else {
            let encodings_1 = spec_selectors(bytes, start);
            let encodings_2 = spec_selectors(bytes, start + SELECTOR_BYTES);
            match spec_decode_lines(
                encodings_1,
                bytes,
                start + 2 * SELECTOR_BYTES,
                LAYER_HEIGHT as int,
            ) {
                None => None,
                Some((layer_1, middle)) => match spec_decode_lines(
                    encodings_2,
                    bytes,
                    middle,
                    LAYER_HEIGHT as int,
                ) {
                    None => None,
                    Some((layer_2, next)) => Some(
                        (
                            StoredFrame {
                                header,
                                translate_x: if header.spec_is_translated() {
                                    spec_i8(bytes[pos + 1]) as i8
                                } else {
                                    0i8
                                },
                                translate_y: if header.spec_is_translated() {
                                    spec_i8(bytes[pos + 2]) as i8
                                } else {
                                    0i8
                                },
                                encodings_1,
                                encodings_2,
                                layer_1,
                                layer_2,
                            },
                            next,
                        ),
                    ),
                },
            }
        }
    }
}

/// What a decoded frame holds.
pub struct FrameView {
    pub header: PPMFrameHeader,
    pub translate_x: i8,
    pub translate_y: i8,
    pub encodings_1: Seq<LineEncoding>,
    pub encodings_2: Seq<LineEncoding>,
    pub layer_1: Seq<Seq<u8>>,
    pub layer_2: Seq<Seq<u8>>,
    pub hide_layer_1: bool,
    pub hide_layer_2: bool,
}

/// The frame stored at `pos`, decoded: the stored frame, with the frame before it taken in
/// where the header says that it is stored as a difference and there is a frame before it.
/// With it comes the position behind the frame. `Format` where the bytes end before the
/// frame does; `Bounds` where the frame before it does not hold 192 lines of 256 pixels in
/// each layer.
pub open spec fn spec_decode_frame(
    bytes: Seq<u8>,
    pos: int,
    flags: PPMAnimationFlags,
    previous: Option<FrameView>,
) -> Result<(FrameView, int), PpmError> {
    match spec_parse_stored(bytes, pos) {
        None => Err(PpmError::Format),
        Some((stored, next)) => {
            let diffed = previous is Some && stored.header.spec_frame_type()
                == PPMFrameType::Diffed;
            if diffed && !(rows_have_shape(previous->Some_0.layer_1) && rows_have_shape(
                previous->Some_0.layer_2,
            )) {
                Err(PpmError::Bounds)
            } else {
                Ok(
                    (
                        FrameView {
                            header: stored.header,
                            translate_x: stored.translate_x,
                            translate_y: stored.translate_y,
                            encodings_1: stored.encodings_1,
                            encodings_2: stored.encodings_2,
                            layer_1: if diffed {
                                diff_layer(
                                    stored.layer_1,
                                    previous->Some_0.layer_1,
                                    stored.translate_x as int,
                                    stored.translate_y as int,
                                )
                            } else {
                                stored.layer_1
                            },
                            layer_2: if diffed {
                                diff_layer(
                                    stored.layer_2,
                                    previous->Some_0.layer_2,
                                    stored.translate_x as int,
                                    stored.translate_y as int,
                                )
                            } else {
                                stored.layer_2
                            },
                            hide_layer_1: flags.spec_hide_layer(1),
                            hide_layer_2: flags.spec_hide_layer(2),
                        },
                        next,
                    ),
                )
            }
        },
    }
}

/// The colour of the pixel at (`x`, `y`) of a painted frame: that of layer 1 where layer 1
/// is set and shown, else that of layer 2 where layer 2 is set and shown, else that of the
/// paper.
pub open spec fn spec_frame_pixel_color(frame: FrameView, x: int, y: int) -> RgbWrapper {
    let paper = frame.header.spec_paper_color();
    if !frame.hide_layer_1 && frame.layer_1[y][x] != 0 {
        frame.header.spec_layer_color(1).spec_rgb(paper)
    } else if !frame.hide_layer_2 && frame.layer_2[y][x] != 0 {
        frame.header.spec_layer_color(2).spec_rgb(paper)
    } else {
        paper.spec_rgb()
    }
}

/// Byte `at` of a painted frame: four bytes for each pixel, red, green, blue and full
/// opacity, row after row.
pub open spec fn spec_frame_image_byte(frame: FrameView, at: int) -> u8 {
    let color = spec_frame_pixel_color(frame, (at / 4) % 256, (at / 4) / 256);
    if at % 4 == 0 {
        color.r
    } else if at % 4 == 1 {
        color.g
    } else if at % 4 == 2 {
        color.b
    } else {
        255u8
    }
}

/// Bytes in a painted frame.
pub const FRAME_IMAGE_BYTES: usize = 196608;

/// Taking the frame before in twice gives the stored frame back: the difference of a
/// difference, against the same frame and with the same translation, is the frame that was
/// stored, in both layers.
pub proof fn lemma_frame_diffing_involution(
    stored_1: Seq<Seq<u8>>,
    stored_2: Seq<Seq<u8>>,
    previous: FrameView,
    tx: int,
    ty: int,
)
    requires
        rows_have_shape(stored_1),
        rows_have_shape(stored_2),
    ensures
        diff_layer(diff_layer(stored_1, previous.layer_1, tx, ty), previous.layer_1, tx, ty)
            == stored_1,
        diff_layer(diff_layer(stored_2, previous.layer_2, tx, ty), previous.layer_2, tx, ty)
            == stored_2,
{
    lemma_diffing_involution(stored_1, previous.layer_1, tx, ty);
    lemma_diffing_involution(stored_2, previous.layer_2, tx, ty);
}

/// Byte `b` of the selector block for the encodings: the codes of lines `4 * b` to
/// `4 * b + 3`, the first in the two highest bits.
pub open spec fn spec_selector_byte(encodings: Seq<LineEncoding>, b: int) -> u8 {
    (encodings[4 * b].spec_code() << 6u8) | (encodings[4 * b + 1].spec_code() << 4u8) | (encodings[4
        * b + 2].spec_code() << 2u8) | encodings[4 * b + 3].spec_code()
}

/// The selector block for the encodings of the 192 lines of a layer.
pub open spec fn spec_selector_bytes(encodings: Seq<LineEncoding>) -> Seq<u8> {
    Seq::new(SELECTOR_BYTES as nat, |b: int| spec_selector_byte(encodings, b))
}

/// A signed byte as it is stored.
pub open spec fn spec_stored_i8(value: i8) -> u8 {
    if value >= 0 {
        value as u8
    } else {
        (value + 256) as u8
    }
}

/// The translation as it is stored: two bytes where the header announces one, else nothing.
pub open spec fn spec_translation_bytes(frame: FrameView) -> Seq<u8> {
    if frame.header.spec_is_translated() {
        seq![spec_stored_i8(frame.translate_x), spec_stored_i8(frame.translate_y)]
    } else {
        Seq::empty()
    }
}

/// Whether the frame can be stored: both layers can be stored under the encodings of their
/// lines, and a frame whose header announces no translation has none.
pub open spec fn frame_encodable(frame: FrameView) -> bool {
    &&& rows_encodable(frame.layer_1, frame.encodings_1)
    &&& rows_encodable(frame.layer_2, frame.encodings_2)
    &&& !frame.header.spec_is_translated() ==> frame.translate_x == 0 && frame.translate_y == 0
}

/// The bytes that store a frame as it is: the header byte, the translation, the selector
/// blocks of layer 1 and of layer 2, the lines of layer 1 and the lines of layer 2.
pub open spec fn spec_encode_frame(frame: FrameView) -> Seq<u8> {
    seq![frame.header.header] + spec_translation_bytes(frame) + spec_selector_bytes(
        frame.encodings_1,
    ) + spec_selector_bytes(frame.encodings_2) + spec_encode_lines(
        frame.layer_1,
        frame.encodings_1,
        LAYER_HEIGHT as int,
    ) + spec_encode_lines(frame.layer_2, frame.encodings_2, LAYER_HEIGHT as int)
}

/// The four codes packed into a selector byte come out of it again.
proof fn lemma_selector_codes(c0: u8, c1: u8, c2: u8, c3: u8)
    by (bit_vector)
    requires
        c0 <= 3,
        c1 <= 3,
        c2 <= 3,
        c3 <= 3,
    ensures
        ({
            let byte = (c0 << 6u8) | (c1 << 4u8) | (c2 << 2u8) | c3;
            &&& (byte >> 6u8) & 3u8 == c0
            &&& (byte >> 4u8) & 3u8 == c1
            &&& (byte >> 2u8) & 3u8 == c2
            &&& (byte >> 0u8) & 3u8 == c3
        }),
{
}

/// Reading a selector block back gives the encodings that it was made from.
#[verifier::rlimit(50)]
pub proof fn lemma_selectors_roundtrip(encodings: Seq<LineEncoding>, bytes: Seq<u8>, pos: int)
    requires
        encodings.len() == LAYER_HEIGHT,
        0 <= pos,
        pos + SELECTOR_BYTES <= bytes.len(),
        bytes.subrange(pos, pos + SELECTOR_BYTES) == spec_selector_bytes(encodings),
    ensures
        spec_selectors(bytes, pos) == encodings,
{
    let read = spec_selectors(bytes, pos);
    assert forall|y: int| 0 <= y < LAYER_HEIGHT implies read[y] == encodings[y] by {
        let b = y / 4;
        assert(bytes.subrange(pos, pos + SELECTOR_BYTES)[b] == bytes[pos + b]);
        assert(bytes[pos + b] == spec_selector_byte(encodings, b));
        lemma_selector_codes(
            encodings[4 * b].spec_code(),
            encodings[4 * b + 1].spec_code(),
            encodings[4 * b + 2].spec_code(),
            encodings[4 * b + 3].spec_code(),
        );
        if y % 4 == 0 {
            assert(y == 4 * b);
        } else if y % 4 == 1 {
            assert(y == 4 * b + 1);
        } else if y % 4 == 2 {
            assert(y == 4 * b + 2);
        } else {
            assert(y == 4 * b + 3);
        }
        assert(LineEncoding::of_code(encodings[y].spec_code()) == encodings[y]);
    }
    assert(read =~= encodings);
}

/// Decoding what was encoded gives the frame back: the bytes that store a frame, whatever
/// follows them, are read as that frame, and the reader stops right behind them.
#[verifier::rlimit(80)]
pub proof fn lemma_frame_roundtrip(frame: FrameView, tail: Seq<u8>)
    requires
        frame_encodable(frame),
        rows_binary(frame.layer_1),
        rows_binary(frame.layer_2),
    ensures
        spec_parse_stored(spec_encode_frame(frame) + tail, 0) == Some(
            (
                StoredFrame {
                    header: frame.header,
                    translate_x: frame.translate_x,
                    translate_y: frame.translate_y,
                    encodings_1: frame.encodings_1,
                    encodings_2: frame.encodings_2,
                    layer_1: frame.layer_1,
                    layer_2: frame.layer_2,
                },
                spec_encode_frame(frame).len() as int,
            ),
        ),
{
    let bytes = spec_encode_frame(frame) + tail;
    let front = seq![frame.header.header] + spec_translation_bytes(frame);
    let selectors_1 = spec_selector_bytes(frame.encodings_1);
    let selectors_2 = spec_selector_bytes(frame.encodings_2);
    let lines_1 = spec_encode_lines(frame.layer_1, frame.encodings_1, LAYER_HEIGHT as int);
    let lines_2 = spec_encode_lines(frame.layer_2, frame.encodings_2, LAYER_HEIGHT as int);
    let start = front.len() as int;
    let first = start + 2 * SELECTOR_BYTES;
    let middle = first + lines_1.len();
    lemma_frame_front(frame, tail);
    assert(bytes =~= front + selectors_1 + (selectors_2 + lines_1 + lines_2 + tail));
    lemma_concat_segment(front, selectors_1, selectors_2 + lines_1 + lines_2 + tail);
    assert(bytes =~= (front + selectors_1) + selectors_2 + (lines_1 + lines_2 + tail));
    lemma_concat_segment(front + selectors_1, selectors_2, lines_1 + lines_2 + tail);
    assert(bytes =~= (front + selectors_1 + selectors_2) + lines_1 + (lines_2 + tail));
    lemma_concat_segment(front + selectors_1 + selectors_2, lines_1, lines_2 + tail);
    assert(bytes =~= (front + selectors_1 + selectors_2 + lines_1) + lines_2 + tail);
    lemma_concat_segment(front + selectors_1 + selectors_2 + lines_1, lines_2, tail);
    lemma_selectors_roundtrip(frame.encodings_1, bytes, start);
    lemma_selectors_roundtrip(frame.encodings_2, bytes, start + SELECTOR_BYTES);
    lemma_lines_roundtrip(frame.layer_1, frame.encodings_1, bytes, first, LAYER_HEIGHT as int);
    lemma_lines_roundtrip(frame.layer_2, frame.encodings_2, bytes, middle, LAYER_HEIGHT as int);
    assert(frame.layer_1.subrange(0, LAYER_HEIGHT as int) =~= frame.layer_1);
    assert(frame.layer_2.subrange(0, LAYER_HEIGHT as int) =~= frame.layer_2);
}

/// The header byte and the translation are read back as they were stored.
proof fn lemma_frame_front(frame: FrameView, tail: Seq<u8>)
    requires
        !frame.header.spec_is_translated() ==> frame.translate_x == 0 && frame.translate_y == 0,
    ensures
        ({
            let bytes = spec_encode_frame(frame) + tail;
            &&& bytes.len() >= 1
            &&& bytes[0] == frame.header.header
            &&& frame.header.spec_is_translated() ==> bytes.len() >= 3 && spec_i8(bytes[1]) as i8
                == frame.translate_x && spec_i8(bytes[2]) as i8 == frame.translate_y
            &&& (seq![frame.header.header] + spec_translation_bytes(frame)).len()
                == if frame.header.spec_is_translated() {
                3int
            } else {
                1int
            }
        }),
{
    let stored = spec_encode_frame(frame);
    let bytes = stored + tail;
    let front = seq![frame.header.header] + spec_translation_bytes(frame);
    assert(stored.len() >= front.len());
    assert forall|k: int| 0 <= k < front.len() implies bytes[k] == front[k] by {
        assert(bytes[k] == stored[k]);
    }
    assert(bytes[0] == front[0]);
    if frame.header.spec_is_translated() {
        assert(bytes[1] == front[1]);
        assert(bytes[2] == front[2]);
    }
}

/// What the frame before holds, where there is one.
pub open spec fn previous_view(previous: Option<PPMFrame>) -> Option<FrameView> {
    match previous {
        Some(frame) => Some(frame@),
        None => None,
    }
}

/// A decoded frame.
#[derive(Debug)]
pub struct PPMFrame {
    pub header: PPMFrameHeader,
    pub translate_x: i8,
    pub translate_y: i8,
    pub layer_1: PPMLayer,
    pub layer_2: PPMLayer,
    pub hide_layer_1: bool,
    pub hide_layer_2: bool,
}

impl View for PPMFrame {
    type V = FrameView;

    open spec fn view(&self) -> FrameView {
        FrameView {
            header: self.header,
            translate_x: self.translate_x,
            translate_y: self.translate_y,
            encodings_1: self.layer_1.encodings(),
            encodings_2: self.layer_2.encodings(),
            layer_1: self.layer_1@,
            layer_2: self.layer_2@,
            hide_layer_1: self.hide_layer_1,
            hide_layer_2: self.hide_layer_2,
        }
    }
}

impl Clone for PPMFrame {
    fn clone(&self) -> (frame: Self)
        ensures
            frame@ == self@,
            frame.header == self.header,
            frame.translate_x == self.translate_x,
            frame.translate_y == self.translate_y,
            frame.layer_1@ == self.layer_1@,
            frame.layer_2@ == self.layer_2@,
            frame.layer_1.encodings() == self.layer_1.encodings(),
            frame.layer_2.encodings() == self.layer_2.encodings(),
            frame.hide_layer_1 == self.hide_layer_1,
            frame.hide_layer_2 == self.hide_layer_2,
    {
        PPMFrame {
            header: self.header,
            translate_x: self.translate_x,
            translate_y: self.translate_y,
            layer_1: self.layer_1.clone(),
            layer_2: self.layer_2.clone(),
            hide_layer_1: self.hide_layer_1,
            hide_layer_2: self.hide_layer_2,
        }
    }
}

impl Default for PPMFrame {
    fn default() -> (frame: Self)
        ensures
            frame.wf(),
            frame.header.header == 0,
            frame.translate_x == 0,
            frame.translate_y == 0,
            frame.layer_1.is_blank(),
            frame.layer_2.is_blank(),
            !frame.hide_layer_1,
            !frame.hide_layer_2,
    {
        PPMFrame {
            header: PPMFrameHeader { header: 0 },
            translate_x: 0,
            translate_y: 0,
            layer_1: PPMLayer::default(),
            layer_2: PPMLayer::default(),
            hide_layer_1: false,
            hide_layer_2: false,
        }
    }
}

impl PPMFrame {
    /// Both layers hold 192 lines of 256 binary pixels.
    pub open spec fn wf(&self) -> bool {
        self.layer_1.wf() && self.layer_2.wf()
    }

    /// Both layers hold 192 lines of 256 pixels.
    pub open spec fn has_shape(&self) -> bool {
        self.layer_1.has_shape() && self.layer_2.has_shape()
    }

    /// Whether the frame is a stored difference that takes the frame before it in.
    pub open spec fn spec_is_diffed(&self) -> bool {
        self.header.spec_frame_type() == PPMFrameType::Diffed
    }

    /// The colour of the pixel at (`x`, `y`) of the painted frame.
    pub open spec fn spec_pixel_color(&self, x: int, y: int) -> RgbWrapper {
        spec_frame_pixel_color(self@, x, y)
    }

    /// Byte `at` of the painted frame.
    pub open spec fn spec_image_byte(&self, at: int) -> u8 {
        spec_frame_image_byte(self@, at)
    }

    /// Decodes the frame stored at the cursor. `flags` says which layers are hidden. A frame
    /// stored as a difference takes `previous_frame` in, where there is one; the first frame
    /// of a sequence has none and is taken as stored, whatever its header says.
    #[verifier::rlimit(50)]
    pub fn parse(
        cursor: &mut ByteCursor,
        flags: &PPMAnimationFlags,
        previous_frame: Option<PPMFrame>,
    ) -> (r: Result<Self, PpmError>)
        ensures
            final(cursor).data@ == old(cursor).data@,
            match spec_decode_frame(
                old(cursor).data@,
                old(cursor).pos as int,
                *flags,
                previous_view(previous_frame),
            ) {
                Ok((frame, next)) => r is Ok && r->Ok_0@ == frame && final(cursor).pos == next
                    && r->Ok_0.wf(),
                Err(e) => r is Err && r->Err_0 == e,
            },
    {
        let ghost bytes = cursor.data@;
        let ghost pos = cursor.pos as int;
        let hide_layer_1 = flags.flags & 0x10 != 0;
        let hide_layer_2 = flags.flags & 0x20 != 0;
        let header = match cursor.read_u8() {
            Ok(b) => PPMFrameHeader { header: b },
            Err(e) => {
                return Err(PpmError::Format);
            },
        };
        let mut translate_x: i8 = 0;
        let mut translate_y: i8 = 0;
        if header.get_is_translated() {
            if cursor.available() < 2 {
                return Err(PpmError::Format);
            }
            translate_x = match cursor.read_i8() {
                Ok(v) => v,
                Err(e) => {
                    return Err(PpmError::Format);
                },
            };
            translate_y = match cursor.read_i8() {
                Ok(v) => v,
                Err(e) => {
                    return Err(PpmError::Format);
                },
            };
        }
        if cursor.available() < 2 * SELECTOR_BYTES {
            return Err(PpmError::Format);
        }
        let ghost start = cursor.pos as int;
        let encodings_1 = read_selectors(cursor);
        let encodings_2 = read_selectors(cursor);
        let mut layer_1 = PPMLayer::new(encodings_1.as_slice());
        let mut layer_2 = PPMLayer::new(encodings_2.as_slice());
        assert(layer_1.encodings() =~= spec_selectors(bytes, start));
        assert(layer_2.encodings() =~= spec_selectors(bytes, start + SELECTOR_BYTES));
        match layer_1.parse(cursor) {
            Ok(()) => {},
            Err(e) => {
                return Err(PpmError::Format);
            },
        }
        match layer_2.parse(cursor) {
            Ok(()) => {},
            Err(e) => {
                return Err(PpmError::Format);
            },
        }
        let mut frame = PPMFrame {
            header,
            translate_x,
            translate_y,
            layer_1,
            layer_2,
            hide_layer_1,
            hide_layer_2,
        };
        match previous_frame {
            Some(previous) => {
                proof {
                    lemma_shape_of_view(&previous.layer_1);
                    lemma_shape_of_view(&previous.layer_2);
                }
                match frame.decode_diffing(&previous) {
                    Ok(()) => {},
                    Err(e) => {
                        return Err(PpmError::Bounds);
                    },
                }
            },
            None => {},
        }
        Ok(frame)
    }

    /// Takes the frame before this one in, where this frame is stored as a difference: every
    /// pixel whose source, the pixel moved back by the translation, lies inside the frame is
    /// replaced by its exclusive or with the source pixel of `previous_frame`. A frame stored
    /// whole is left as it is.
    pub fn decode_diffing(&mut self, previous_frame: &PPMFrame) -> (r: Result<(), PpmError>)
        ensures
            final(self).header == old(self).header,
            final(self).translate_x == old(self).translate_x,
            final(self).translate_y == old(self).translate_y,
            final(self).hide_layer_1 == old(self).hide_layer_1,
            final(self).hide_layer_2 == old(self).hide_layer_2,
            final(self).layer_1.encodings() == old(self).layer_1.encodings(),
            final(self).layer_2.encodings() == old(self).layer_2.encodings(),
            !old(self).spec_is_diffed() ==> r is Ok && final(self).layer_1@ == old(self).layer_1@
                && final(self).layer_2@ == old(self).layer_2@,
            old(self).spec_is_diffed() && old(self).has_shape() && previous_frame.has_shape() ==> r
                is Ok && final(self).layer_1@ == diff_layer(
                old(self).layer_1@,
                previous_frame.layer_1@,
                old(self).translate_x as int,
                old(self).translate_y as int,
            ) && final(self).layer_2@ == diff_layer(
                old(self).layer_2@,
                previous_frame.layer_2@,
                old(self).translate_x as int,
                old(self).translate_y as int,
            ),
            old(self).spec_is_diffed() && !(old(self).has_shape() && previous_frame.has_shape())
                ==> r == Err::<(), PpmError>(PpmError::Bounds)
                    && final(self).layer_1@ == old(self).layer_1@
                    && final(self).layer_2@ == old(self).layer_2@,
            old(self).wf() ==> final(self).wf(),
    {
        match self.header.get_frame_type() {
            PPMFrameType::Normal => {
                return Ok(());
            },
            PPMFrameType::Diffed => {},
        }
        if !(self.layer_1.check_shape() && self.layer_2.check_shape()
            && previous_frame.layer_1.check_shape() && previous_frame.layer_2.check_shape()) {
            return Err(PpmError::Bounds);
        }
        self.layer_1.decode_diffing(&previous_frame.layer_1, self.translate_x, self.translate_y);
        self.layer_2.decode_diffing(&previous_frame.layer_2, self.translate_x, self.translate_y);
        Ok(())
    }

    /// The bytes that store the frame as it is: a frame that is to be stored as a difference
    /// is first turned into its difference by `decode_diffing`, which undoes itself. `Codec`
    /// where a layer cannot be stored under the encodings of its lines, or the frame has a
    /// translation that its header does not announce.
    #[verifier::rlimit(50)]
    pub fn encode(&self) -> (r: Result<Vec<u8>, PpmError>)
        ensures
            frame_encodable(self@) ==> r is Ok && r->Ok_0@ == spec_encode_frame(self@),
            !frame_encodable(self@) ==> r == Err::<Vec<u8>, PpmError>(PpmError::Codec),
    {
        let translated = self.header.get_is_translated();
        if !translated && (self.translate_x != 0 || self.translate_y != 0) {
            return Err(PpmError::Codec);
        }
        let lines_1 = match self.layer_1.encode() {
            Ok(l) => l,
            Err(e) => {
                return Err(PpmError::Codec);
            },
        };
        let lines_2 = match self.layer_2.encode() {
            Ok(l) => l,
            Err(e) => {
                return Err(PpmError::Codec);
            },
        };
        let mut out: Vec<u8> = Vec::new();
        out.push(self.header.header);
        if translated {
            out.push(stored_i8(self.translate_x));
            out.push(stored_i8(self.translate_y));
        }
        assert(out@ =~= seq![self.header.header] + spec_translation_bytes(self@));
        write_selectors(&mut out, &self.layer_1);
        write_selectors(&mut out, &self.layer_2);
        push_bytes(&mut out, lines_1.as_slice());
        push_bytes(&mut out, lines_2.as_slice());
        Ok(out)
    }

    /// Paints the frame: the paper, then layer 2 where it is set and shown, then layer 1 on
    /// top where it is set and shown. Every pixel is opaque.
    #[verifier::rlimit(50)]
    pub fn get_image(&self) -> (r: Result<ImageWrapper, PpmError>)
        ensures
            self.has_shape() ==> r is Ok && r->Ok_0.wf() && r->Ok_0.width == LINE_WIDTH
                && r->Ok_0.height == LAYER_HEIGHT && forall|x: int, y: int|
                0 <= x < LINE_WIDTH && 0 <= y < LAYER_HEIGHT ==> #[trigger] r->Ok_0.spec_pixel(x, y)
                    == self.spec_pixel_color(x, y) && r->Ok_0.pixels@[4 * (y * 256 + x) + 3]
                    == 255,
            self.has_shape() ==> forall|at: int|
                0 <= at < 4 * (LINE_WIDTH * LAYER_HEIGHT) ==> #[trigger] r->Ok_0.pixels@[at]
                    == self.spec_image_byte(at),
            !self.has_shape() ==> r == Err::<ImageWrapper, PpmError>(PpmError::Bounds),
    {
        if !(self.layer_1.check_shape() && self.layer_2.check_shape()) {
            return Err(PpmError::Bounds);
        }
        let paper = self.header.get_paper_color();
        let paper_rgb = paper.get_rgb_color();
        let rgb_1 = match self.header.get_layer_color(1) {
            Ok(c) => c.get_rgb_color(&paper),
            Err(e) => paper_rgb,
        };
        let rgb_2 = match self.header.get_layer_color(2) {
            Ok(c) => c.get_rgb_color(&paper),
            Err(e) => paper_rgb,
        };
        let mut pixels: Vec<u8> = Vec::with_capacity(4 * 256 * 192);
        let mut y: usize = 0;
        while y < 192
            invariant
                y <= 192,
                self.has_shape(),
                paper_rgb == self.header.spec_paper_color().spec_rgb(),
                rgb_1 == self.header.spec_layer_color(1).spec_rgb(self.header.spec_paper_color()),
                rgb_2 == self.header.spec_layer_color(2).spec_rgb(self.header.spec_paper_color()),
                pixels@.len() == 4 * (y * 256),
                forall|at: int|
                    0 <= at < pixels@.len() ==> #[trigger] pixels@[at] == self.spec_image_byte(at),
            decreases 192 - y,
        {
            let mut x: usize = 0;
            while x < 256
                invariant
                    x <= 256,
                    y < 192,
                    self.has_shape(),
                    paper_rgb == self.header.spec_paper_color().spec_rgb(),
                    rgb_1 == self.header.spec_layer_color(1).spec_rgb(
                        self.header.spec_paper_color(),
                    ),
                    rgb_2 == self.header.spec_layer_color(2).spec_rgb(
                        self.header.spec_paper_color(),
                    ),
                    pixels@.len() == 4 * (y * 256 + x),
                    forall|at: int|
                        0 <= at < pixels@.len() ==> #[trigger] pixels@[at] == self.spec_image_byte(
                            at,
                        ),
                decreases 256 - x,
            {
                assert(self.layer_1.lines@[y as int]@.len() == 256);
                assert(self.layer_2.lines@[y as int]@.len() == 256);
                let set_1 = self.layer_1.lines[y].data[x] != 0;
                let set_2 = self.layer_2.lines[y].data[x] != 0;
                let color = if !self.hide_layer_1 && set_1 {
                    rgb_1
                } else if !self.hide_layer_2 && set_2 {
                    rgb_2
                } else {
                    paper_rgb
                };
                assert(color == self.spec_pixel_color(x as int, y as int));
                let ghost base = pixels@.len() as int;
                pixels.push(color.r);
                pixels.push(color.g);
                pixels.push(color.b);
                pixels.push(255);
                assert forall|at: int| base <= at < base + 4 implies #[trigger] pixels@[at]
                    == self.spec_image_byte(at) by {
                    assert(at / 4 == y * 256 + x);
                    assert((at / 4) % 256 == x as int);
                    assert((at / 4) / 256 == y as int);
                }
                x = x + 1;
            }
            y = y + 1;
        }
        assert forall|x: int, y: int| 0 <= x < LINE_WIDTH && 0 <= y < LAYER_HEIGHT implies pixels@[4
            * (y * 256 + x)] == self.spec_pixel_color(x, y).r && pixels@[4 * (y * 256 + x) + 1]
            == self.spec_pixel_color(x, y).g && pixels@[4 * (y * 256 + x) + 2]
            == self.spec_pixel_color(x, y).b && pixels@[4 * (y * 256 + x) + 3] == 255 by {
            let p = y * 256 + x;
            assert(p % 256 == x && p / 256 == y);
            assert((4 * p) / 4 == p && (4 * p) % 4 == 0);
            assert((4 * p + 1) / 4 == p && (4 * p + 1) % 4 == 1);
            assert((4 * p + 2) / 4 == p && (4 * p + 2) % 4 == 2);
            assert((4 * p + 3) / 4 == p && (4 * p + 3) % 4 == 3);
            assert(pixels@[4 * p] == self.spec_image_byte(4 * p));
            assert(pixels@[4 * p + 1] == self.spec_image_byte(4 * p + 1));
            assert(pixels@[4 * p + 2] == self.spec_image_byte(4 * p + 2));
            assert(pixels@[4 * p + 3] == self.spec_image_byte(4 * p + 3));
        }
        let image = ImageWrapper { width: 256, height: 192, pixels };
        Ok(image)
    }
}

/// A signed byte as it is stored.
fn stored_i8(value: i8) -> (b: u8)
    ensures
        b == spec_stored_i8(value),
{
    if value >= 0 {
        value as u8
    } else {
        (value as i16 + 256) as u8
    }
}

/// Appends the selector block of a layer of 192 lines.
#[verifier::rlimit(50)]
fn write_selectors(out: &mut Vec<u8>, layer: &PPMLayer)
    requires
        layer.lines@.len() == LAYER_HEIGHT,
    ensures
        final(out)@ == old(out)@ + spec_selector_bytes(layer.encodings()),
{
    let mut b: usize = 0;
    while b < 48
        invariant
            b <= 48,
            layer.lines@.len() == LAYER_HEIGHT,
            out@.len() == old(out)@.len() + b,
            forall|k: int| 0 <= k < old(out)@.len() ==> out@[k] == old(out)@[k],
            forall|k: int|
                0 <= k < b ==> #[trigger] out@[old(out)@.len() + k] == spec_selector_byte(
                    layer.encodings(),
                    k,
                ),
        decreases 48 - b,
    {
        let c0 = layer.lines[4 * b].encoding.code();
        let c1 = layer.lines[4 * b + 1].encoding.code();
        let c2 = layer.lines[4 * b + 2].encoding.code();
        let c3 = layer.lines[4 * b + 3].encoding.code();
        out.push((c0 << 6u8) | (c1 << 4u8) | (c2 << 2u8) | c3);
        b = b + 1;
    }
    assert forall|i: int| old(out)@.len() <= i < out@.len() implies out@[i] == spec_selector_bytes(
        layer.encodings(),
    )[i - old(out)@.len()] by {
        let k = i - old(out)@.len();
        assert(out@[old(out)@.len() + k] == spec_selector_byte(layer.encodings(), k));
    }
    assert(out@ =~= old(out)@ + spec_selector_bytes(layer.encodings()));
}

/// Reads one selector block: the encodings of the 192 lines of a layer.
#[verifier::rlimit(50)]
fn read_selectors(cursor: &mut ByteCursor) -> (encodings: Vec<LineEncoding>)
    requires
        old(cursor).remaining() >= SELECTOR_BYTES,
    ensures
        final(cursor).data@ == old(cursor).data@,
        final(cursor).pos == old(cursor).pos + SELECTOR_BYTES,
        encodings@ == spec_selectors(old(cursor).data@, old(cursor).pos as int),
{
    let start = cursor.pos;
    let len = cursor.data.len();
    let mut encodings: Vec<LineEncoding> = Vec::with_capacity(192);
    let mut b: usize = 0;
    while b < 48
        invariant
            b <= 48,
            cursor.pos == start,
            cursor.data@ == old(cursor).data@,
            start == old(cursor).pos,
            len == cursor.data@.len(),
            start + 48 <= len,
            encodings@.len() == 4 * b,
            forall|y: int|
                0 <= y < 4 * b ==> #[trigger] encodings@[y] == LineEncoding::of_code(
                    selector_code(cursor.data@, start as int, y),
                ),
        decreases 48 - b,
    {
        let byte = cursor.data[start + b];
        encodings.push(LineEncoding::from((byte >> 6u8) & 3));
        encodings.push(LineEncoding::from((byte >> 4u8) & 3));
        encodings.push(LineEncoding::from((byte >> 2u8) & 3));
        encodings.push(LineEncoding::from((byte >> 0u8) & 3));
        assert forall|y: int| 4 * b <= y < 4 * b + 4 implies #[trigger] encodings@[y]
            == LineEncoding::of_code(selector_code(cursor.data@, start as int, y)) by {
            assert(y / 4 == b as int);
            assert(y % 4 == y - 4 * b);
        }
        b = b + 1;
    }
    cursor.seek(start + 48);
    assert(encodings@ =~= spec_selectors(old(cursor).data@, old(cursor).pos as int));
    encodings
}

} // verus!

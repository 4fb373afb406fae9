//! One of the two binary raster planes of a frame: 192 lines of 256 pixels.

use vstd::prelude::*;
use crate::error::PpmError;
use crate::ppm::frames::line::{
    LineEncoding, PPMLine, encodable, is_binary, is_blank, lemma_line_roundtrip, spec_decode_line,
    spec_encode_line, LINE_WIDTH,
};
use crate::utils::cursor::ByteCursor;

verus! {

/// Lines in a layer.
pub const LAYER_HEIGHT: usize = 192;

/// The rows decoded from the lines stored one after another from `pos` on, line `y` under
/// `encodings[y]`, for the first `upto` lines, and the position behind the last of them.
/// `None` where the bytes end before the lines do.
pub open spec fn spec_decode_lines(
    encodings: Seq<LineEncoding>,
    bytes: Seq<u8>,
    pos: int,
    upto: int,
) -> Option<(Seq<Seq<u8>>, int)>
    decreases upto,
{
    if upto <= 0 {
        Some((Seq::empty(), pos))
    } else {
        match spec_decode_lines(encodings, bytes, pos, upto - 1) {
            Some((rows, at)) => match spec_decode_line(encodings[upto - 1], bytes, at) {
                Some((pixels, next)) => Some((rows.push(pixels), next)),
                None => None,
            },
            None => None,
        }
    }
}

/// The bytes that store the first `upto` rows one after another, row `y` under
/// `encodings[y]`.
pub open spec fn spec_encode_lines(rows: Seq<Seq<u8>>, encodings: Seq<LineEncoding>, upto: int) -> Seq<
    u8,
>
    decreases upto,
{
    if upto <= 0 {
        Seq::empty()
    } else {
        spec_encode_lines(rows, encodings, upto - 1) + spec_encode_line(
            encodings[upto - 1],
            rows[upto - 1],
        )
    }
}

/// Whether the rows can be stored under the encodings: the rows have the shape of a layer,
/// there is one encoding for each row, and each row can be stored under its encoding.
pub open spec fn rows_encodable(rows: Seq<Seq<u8>>, encodings: Seq<LineEncoding>) -> bool {
    &&& rows_have_shape(rows)
    &&& encodings.len() == rows.len()
    &&& forall|y: int| 0 <= y < rows.len() ==> encodable(#[trigger] encodings[y], rows[y])
}

/// Every pixel of every row is 0 or 1.
pub open spec fn rows_binary(rows: Seq<Seq<u8>>) -> bool {
    forall|y: int| 0 <= y < rows.len() ==> is_binary(#[trigger] rows[y])
}

/// 1 where a pixel is set, else 0.
pub open spec fn pixel_bit(pixel: u8) -> u8 {
    if pixel != 0 {
        1u8
    } else {
        0u8
    }
}

/// The pixel at (`x`, `y`) of a stored difference `cur` once the frame before it, `prev`, is
/// taken in: where (`x - tx`, `y - ty`) lies inside the frame, the stored pixel exclusive-or
/// the earlier pixel there; elsewhere the stored pixel.
pub open spec fn diff_pixel(
    cur: Seq<Seq<u8>>,
    prev: Seq<Seq<u8>>,
    tx: int,
    ty: int,
    x: int,
    y: int,
) -> u8 {
    if 0 <= x - tx < LINE_WIDTH && 0 <= y - ty < LAYER_HEIGHT {
        cur[y][x] ^ pixel_bit(prev[y - ty][x - tx])
    } else {
        cur[y][x]
    }
}

/// Row `y` of `diff_layer`.
pub open spec fn diff_row(cur: Seq<Seq<u8>>, prev: Seq<Seq<u8>>, tx: int, ty: int, y: int) -> Seq<
    u8,
> {
    Seq::new(LINE_WIDTH as nat, |x: int| diff_pixel(cur, prev, tx, ty, x, y))
}

/// The layer that the stored difference `cur` stands for, given the same layer `prev` of the
/// frame before it and the translation (`tx`, `ty`).
pub open spec fn diff_layer(cur: Seq<Seq<u8>>, prev: Seq<Seq<u8>>, tx: int, ty: int) -> Seq<
    Seq<u8>,
> {
    Seq::new(LAYER_HEIGHT as nat, |y: int| diff_row(cur, prev, tx, ty, y))
}

/// Rows of 192 by 256 pixels.
pub open spec fn rows_have_shape(rows: Seq<Seq<u8>>) -> bool {
    &&& rows.len() == LAYER_HEIGHT
    &&& forall|y: int| 0 <= y < rows.len() ==> (#[trigger] rows[y]).len() == LINE_WIDTH
}

/// A layer of a frame.
#[derive(Debug)]
pub struct PPMLayer {
    pub lines: Vec<PPMLine>,
}

impl View for PPMLayer {
    type V = Seq<Seq<u8>>;

    open spec fn view(&self) -> Seq<Seq<u8>> {
        Seq::new(self.lines@.len(), |y: int| self.lines@[y]@)
    }
}

impl Clone for PPMLayer {
    fn clone(&self) -> (layer: Self)
        ensures
            layer@ == self@,
            layer.encodings() == self.encodings(),
    {
        let mut lines: Vec<PPMLine> = Vec::with_capacity(self.lines.len());
        let mut y: usize = 0;
        while y < self.lines.len()
            invariant
                y <= self.lines@.len(),
                lines@.len() == y,
                forall|k: int|
                    0 <= k < y ==> (#[trigger] lines@[k])@ == self.lines@[k]@ && lines@[k].encoding
                        == self.lines@[k].encoding,
            decreases self.lines@.len() - y,
        {
            lines.push(self.lines[y].clone());
            y = y + 1;
        }
        let layer = PPMLayer { lines };
        assert(layer@ =~= self@);
        assert(layer.encodings() =~= self.encodings());
        layer
    }
}

impl Default for PPMLayer {
    fn default() -> (layer: Self)
        ensures
            layer.wf(),
            layer.is_blank(),
            forall|y: int| 0 <= y < LAYER_HEIGHT ==> layer.encodings()[y] == LineEncoding::Raw,
    {
        let mut lines: Vec<PPMLine> = Vec::with_capacity(192);
        let mut y: usize = 0;
        while y < 192
            invariant
                y <= 192,
                lines@.len() == y,
                forall|k: int|
                    0 <= k < y ==> (#[trigger] lines@[k]).wf() && is_blank(lines@[k]@)
                        && lines@[k].encoding == LineEncoding::Raw,
            decreases 192 - y,
        {
            lines.push(PPMLine::new(LineEncoding::Raw));
            y = y + 1;
        }
        PPMLayer { lines }
    }
}

impl PPMLayer {
    /// A layer holds 192 lines of 256 binary pixels.
    pub open spec fn wf(&self) -> bool {
        &&& self.lines@.len() == LAYER_HEIGHT
        &&& forall|y: int| 0 <= y < self.lines@.len() ==> (#[trigger] self.lines@[y]).wf()
    }

    /// Every pixel is 0.
    pub open spec fn is_blank(&self) -> bool {
        forall|y: int| 0 <= y < self.lines@.len() ==> is_blank((#[trigger] self.lines@[y])@)
    }

    /// The encodings of the lines, top to bottom.
    pub open spec fn encodings(&self) -> Seq<LineEncoding> {
        Seq::new(self.lines@.len(), |y: int| self.lines@[y].encoding)
    }

    /// Whether the layer holds 192 lines of 256 pixels.
    pub open spec fn has_shape(&self) -> bool {
        &&& self.lines@.len() == LAYER_HEIGHT
        &&& forall|y: int|
            0 <= y < self.lines@.len() ==> (#[trigger] self.lines@[y])@.len() == LINE_WIDTH
    }

    /// A blank layer whose first lines are to be stored under `encodings`; the lines that
    /// `encodings` does not reach are `Raw`, and entries beyond the 192nd are not used.
    pub fn new(encodings: &[LineEncoding]) -> (layer: Self)
        ensures
            layer.wf(),
            layer.is_blank(),
            forall|y: int|
                0 <= y < LAYER_HEIGHT ==> #[trigger] layer.encodings()[y] == if y
                    < encodings@.len() {
                    encodings@[y]
                } else {
                    LineEncoding::Raw
                },
    {
        let mut lines: Vec<PPMLine> = Vec::with_capacity(192);
        let mut y: usize = 0;
        while y < 192
            invariant
                y <= 192,
                lines@.len() == y,
                forall|k: int|
                    0 <= k < y ==> (#[trigger] lines@[k]).wf() && is_blank(lines@[k]@)
                        && lines@[k].encoding == if k < encodings@.len() {
                        encodings@[k]
                    } else {
                        LineEncoding::Raw
                    },
            decreases 192 - y,
        {
            let encoding = if y < encodings.len() {
                encodings[y]
            } else {
                LineEncoding::Raw
            };
            lines.push(PPMLine::new(encoding));
            y = y + 1;
        }
        PPMLayer { lines }
    }

    /// Decodes the lines stored one after another at the cursor, each under its own encoding.
    #[verifier::rlimit(50)]
    pub fn parse(&mut self, cursor: &mut ByteCursor) -> (r: Result<(), PpmError>)
        ensures
            final(cursor).data@ == old(cursor).data@,
            final(self).encodings() == old(self).encodings(),
            match spec_decode_lines(
                old(self).encodings(),
                old(cursor).data@,
                old(cursor).pos as int,
                old(self).lines@.len() as int,
            ) {
                Some((rows, next)) => r is Ok && final(self)@ == rows && final(cursor).pos == next
                    && (old(self).lines@.len() == LAYER_HEIGHT ==> final(self).wf()),
                None => r == Err::<(), PpmError>(PpmError::Format),
            },
    {
        let ghost encodings = self.encodings();
        let ghost bytes = cursor.data@;
        let ghost pos = cursor.pos as int;
        let count = self.lines.len();
        let mut y: usize = 0;
        while y < count
            invariant
                y <= count,
                count == self.lines@.len(),
                count == old(self).lines@.len(),
                cursor.data@ == bytes,
                bytes == old(cursor).data@,
                pos == old(cursor).pos,
                self.encodings() == encodings,
                encodings == old(self).encodings(),
                spec_decode_lines(encodings, bytes, pos, y as int) == Some(
                    (self@.subrange(0, y as int), cursor.pos as int),
                ),
                forall|k: int| 0 <= k < y ==> (#[trigger] self.lines@[k]).wf(),
            decreases count - y,
        {
            let ghost before = *self;
            let ghost at = cursor.pos as int;
            assert(self.lines@[y as int].encoding == encodings[y as int]);
            match self.lines[y].parse(cursor) {
                Ok(()) => {},
                Err(e) => {
                    proof {
                        lemma_decode_lines_none(encodings, bytes, pos, y as int + 1, count as int);
                        assert(self.encodings() =~= encodings);
                    }
                    return Err(PpmError::Format);
                },
            }
            assert(self.encodings() =~= encodings);
            assert(self@.subrange(0, y as int + 1) =~= before@.subrange(0, y as int).push(
                self.lines@[y as int]@,
            ));
            y = y + 1;
        }
        assert(self@.subrange(0, count as int) =~= self@);
        Ok(())
    }

    /// Whether the layer holds 192 lines of 256 pixels.
    #[verifier::rlimit(50)]
    pub fn check_shape(&self) -> (ok: bool)
        ensures
            ok == self.has_shape(),
            ok == rows_have_shape(self@),
    {
        if self.lines.len() != 192 {
            return false;
        }
        let mut y: usize = 0;
        while y < 192
            invariant
                y <= 192,
                self.lines@.len() == 192,
                forall|k: int| 0 <= k < y ==> (#[trigger] self.lines@[k])@.len() == LINE_WIDTH,
            decreases 192 - y,
        {
            if self.lines[y].data.len() != 256 {
                assert(self@[y as int].len() != LINE_WIDTH);
                return false;
            }
            y = y + 1;
        }
        assert forall|k: int| 0 <= k < self@.len() implies (#[trigger] self@[k]).len()
            == LINE_WIDTH by {
            assert(self.lines@[k]@.len() == LINE_WIDTH);
        }
        true
    }

    /// Takes this layer as a stored difference and turns it into the layer it stands for,
    /// given the same layer of the frame before it. A pixel whose source lies outside the frame
    /// keeps its stored value.
    #[verifier::rlimit(50)]
    pub fn decode_diffing(&mut self, previous: &PPMLayer, translate_x: i8, translate_y: i8)
        requires
            old(self).has_shape(),
            previous.has_shape(),
        ensures
            final(self)@ == diff_layer(
                old(self)@,
                previous@,
                translate_x as int,
                translate_y as int,
            ),
            final(self).encodings() == old(self).encodings(),
            final(self).has_shape(),
            old(self).wf() ==> final(self).wf(),
    {
        let ghost cur = self@;
        let ghost prev = previous@;
        let ghost tx = translate_x as int;
        let ghost ty = translate_y as int;
        let mut y: usize = 0;
        while y < 192
            invariant
                y <= 192,
                cur == old(self)@,
                prev == previous@,
                tx == translate_x as int,
                ty == translate_y as int,
                previous.has_shape(),
                old(self).has_shape(),
                self.lines@.len() == 192,
                self.encodings() == old(self).encodings(),
                forall|k: int| 0 <= k < y ==>
                    (#[trigger] self.lines@[k])@ == diff_row(cur, prev, tx, ty, k),
                forall|k: int| y <= k < 192 ==> (#[trigger] self.lines@[k]) == old(self).lines@[k],
                old(self).wf() ==> forall|k: int| 0 <= k < 192 ==> (#[trigger] self.lines@[k]).wf(),
            decreases 192 - y,
        {
            let source_y: i32 = y as i32 - translate_y as i32;
            let mut row: Vec<u8> = Vec::with_capacity(256);
            let mut x: usize = 0;
            while x < 256
                invariant
                    x <= 256,
                    y < 192,
                    source_y == y - ty,
                    tx == translate_x as int,
                    previous.has_shape(),
                    prev == previous@,
                    self.lines@.len() == 192,
                    self.lines@[y as int]@.len() == 256,
                    self.lines@[y as int]@ == cur[y as int],
                    row@.len() == x,
                    forall|i: int| 0 <= i < x ==>
                        #[trigger] row@[i] == diff_pixel(cur, prev, tx, ty, i, y as int),
                    self.lines@[y as int].wf() ==> is_binary(row@),
                decreases 256 - x,
            {
                let stored = self.lines[y].data[x];
                let source_x: i32 = x as i32 - translate_x as i32;
                if 0 <= source_x && source_x < 256 && 0 <= source_y && source_y < 192 {
                    let line = &previous.lines[source_y as usize];
                    assert(line@.len() == LINE_WIDTH);
                    assert(prev[source_y as int] == line@);
                    let earlier = line.data[source_x as usize];
                    let bit: u8 = if earlier != 0 {
                        1
                    } else {
                        0
                    };
                    assert(stored <= 1 && bit <= 1 ==> stored ^ bit <= 1) by (bit_vector);
                    row.push(stored ^ bit);
                } else {
                    row.push(stored);
                }
                x = x + 1;
            }
            assert(row@ =~= diff_row(cur, prev, tx, ty, y as int));
            self.lines[y].data = row;
            assert(self.encodings() =~= old(self).encodings());
            y = y + 1;
        }
        assert(self@ =~= diff_layer(cur, prev, tx, ty));
    }

    /// The bytes that store the lines one after another, each under its own encoding.
    /// `Codec` where the layer does not hold 192 lines of 256 pixels or a line that is not
    /// blank has the encoding `Skip`.
    #[verifier::rlimit(50)]
    pub fn encode(&self) -> (r: Result<Vec<u8>, PpmError>)
        ensures
            rows_encodable(self@, self.encodings()) ==> r is Ok && r->Ok_0@ == spec_encode_lines(
                self@,
                self.encodings(),
                LAYER_HEIGHT as int,
            ),
            !rows_encodable(self@, self.encodings()) ==> r == Err::<Vec<u8>, PpmError>(
                PpmError::Codec,
            ),
    {
        if self.lines.len() != 192 {
            return Err(PpmError::Codec);
        }
        let mut out: Vec<u8> = Vec::new();
        let mut y: usize = 0;
        while y < 192
            invariant
                y <= 192,
                self.lines@.len() == 192,
                out@ == spec_encode_lines(self@, self.encodings(), y as int),
                forall|k: int|
                    0 <= k < y ==> (#[trigger] self@[k]).len() == LINE_WIDTH && encodable(
                        self.encodings()[k],
                        self@[k],
                    ),
            decreases 192 - y,
        {
            let stored = match self.lines[y].encode() {
                Ok(s) => s,
                Err(e) => {
                    assert(!(self@[y as int].len() == LINE_WIDTH && encodable(
                        self.encodings()[y as int],
                        self@[y as int],
                    )));
                    return Err(PpmError::Codec);
                },
            };
            crate::utils::cursor::push_bytes(&mut out, stored.as_slice());
            y = y + 1;
        }
        Ok(out)
    }

    /// The pixels of the whole layer, row after row.
    #[verifier::rlimit(50)]
    pub fn get_data(&self) -> (r: Result<Vec<u8>, PpmError>)
        ensures
            self.has_shape() ==> r is Ok && r->Ok_0@.len() == LAYER_HEIGHT * LINE_WIDTH && forall|
                x: int,
                y: int,
            |
                0 <= x < LINE_WIDTH && 0 <= y < LAYER_HEIGHT ==> r->Ok_0@[y * 256 + x]
                    == #[trigger] self@[y][x],
            !self.has_shape() ==> r == Err::<Vec<u8>, PpmError>(PpmError::Bounds),
    {
        if self.lines.len() != 192 {
            return Err(PpmError::Bounds);
        }
        let mut data: Vec<u8> = Vec::with_capacity(256 * 192);
        let mut y: usize = 0;
        while y < 192
            invariant
                y <= 192,
                self.lines@.len() == 192,
                data@.len() == y * 256,
                forall|k: int| 0 <= k < y ==> (#[trigger] self.lines@[k])@.len() == LINE_WIDTH,
                forall|i: int, k: int|
                    0 <= i < 256 && 0 <= k < y ==> data@[k * 256 + i] == #[trigger] self@[k][i],
            decreases 192 - y,
        {
            if self.lines[y].data.len() != 256 {
                return Err(PpmError::Bounds);
            }
            let mut x: usize = 0;
            while x < 256
                invariant
                    x <= 256,
                    y < 192,
                    self.lines@.len() == 192,
                    self.lines@[y as int]@.len() == 256,
                    data@.len() == y * 256 + x,
                    forall|i: int, k: int|
                        0 <= i < 256 && 0 <= k < y ==> data@[k * 256 + i] == #[trigger] self@[k][i],
                    forall|i: int| 0 <= i < x ==> data@[y * 256 + i] == #[trigger] self@[y as int][i],
                decreases 256 - x,
            {
                data.push(self.lines[y].data[x]);
                x = x + 1;
            }
            y = y + 1;
        }
        Ok(data)
    }

    /// Whether the pixel at column `x` of line `y` is set.
    pub fn get(&self, x: usize, y: usize) -> (r: Result<bool, PpmError>)
        ensures
            y < self@.len() && x < self@[y as int].len() ==> r == Ok::<bool, PpmError>(
                self@[y as int][x as int] != 0,
            ),
            !(y < self@.len() && x < self@[y as int].len()) ==> r == Err::<bool, PpmError>(
                PpmError::Bounds,
            ),
    {
        if y >= self.lines.len() {
            return Err(PpmError::Bounds);
        }
        match self.lines[y].get(x) {
            Ok(pixel) => Ok(pixel != 0),
            Err(e) => Err(PpmError::Bounds),
        }
    }

    /// Sets or clears the pixel at column `x` of line `y`.
    pub fn set(&mut self, x: usize, y: usize, value: bool) -> (r: Result<(), PpmError>)
        ensures
            final(self).encodings() == old(self).encodings(),
            y < old(self)@.len() && x < old(self)@[y as int].len() ==> r is Ok && final(self)@
                == old(self)@.update(
                y as int,
                old(self)@[y as int].update(x as int, if value { 1u8 } else { 0u8 }),
            ),
            !(y < old(self)@.len() && x < old(self)@[y as int].len()) ==> r == Err::<(), PpmError>(
                PpmError::Bounds,
            ) && final(self)@ == old(self)@,
            old(self).wf() ==> final(self).wf(),
    {
        if y >= self.lines.len() {
            return Err(PpmError::Bounds);
        }
        let bit: u8 = if value {
            1
        } else {
            0
        };
        let r = self.lines[y].set(x, bit);
        assert(final(self).encodings() =~= old(self).encodings());
        if r.is_ok() {
            assert(final(self)@ =~= old(self)@.update(
                y as int,
                old(self)@[y as int].update(x as int, bit),
            ));
        } else {
            assert(final(self)@ =~= old(self)@);
        }
        r
    }

    /// Replaces the pixel at column `x` of line `y` by its exclusive or with
    /// `previous_value`, which is 0 or 1.
    pub fn apply_diffing(&mut self, x: usize, y: usize, previous_value: u8) -> (r: Result<
        (),
        PpmError,
    >)
        ensures
            final(self).encodings() == old(self).encodings(),
            y < old(self)@.len() && x < old(self)@[y as int].len() && previous_value <= 1 ==> r
                is Ok && final(self)@ == old(self)@.update(
                y as int,
                old(self)@[y as int].update(
                    x as int,
                    old(self)@[y as int][x as int] ^ previous_value,
                ),
            ),
            !(y < old(self)@.len() && x < old(self)@[y as int].len() && previous_value <= 1) ==> r
                == Err::<(), PpmError>(PpmError::Bounds) && final(self)@ == old(self)@,
            old(self).wf() ==> final(self).wf(),
    {
        if y >= self.lines.len() {
            return Err(PpmError::Bounds);
        }
        let r = self.lines[y].apply_diffing(x, previous_value);
        assert(final(self).encodings() =~= old(self).encodings());
        if r.is_ok() {
            assert(final(self)@ =~= old(self)@.update(
                y as int,
                old(self)@[y as int].update(
                    x as int,
                    old(self)@[y as int][x as int] ^ previous_value,
                ),
            ));
        } else {
            assert(final(self)@ =~= old(self)@);
        }
        r
    }
}

/// Where some line cannot be decoded, no longer run of lines can.
pub proof fn lemma_decode_lines_none(
    encodings: Seq<LineEncoding>,
    bytes: Seq<u8>,
    pos: int,
    failed: int,
    upto: int,
)
    requires
        failed <= upto,
        spec_decode_lines(encodings, bytes, pos, failed) is None,
    ensures
        spec_decode_lines(encodings, bytes, pos, upto) is None,
    decreases upto - failed,
{
    if failed < upto {
        lemma_decode_lines_none(encodings, bytes, pos, failed, upto - 1);
    }
}

/// The bytes of more rows open with the bytes of fewer.
pub proof fn lemma_encode_lines_prefix(
    rows: Seq<Seq<u8>>,
    encodings: Seq<LineEncoding>,
    fewer: int,
    more: int,
)
    requires
        0 <= fewer <= more,
    ensures
        spec_encode_lines(rows, encodings, fewer).len() <= spec_encode_lines(
            rows,
            encodings,
            more,
        ).len(),
        spec_encode_lines(rows, encodings, more).subrange(
            0,
            spec_encode_lines(rows, encodings, fewer).len() as int,
        ) == spec_encode_lines(rows, encodings, fewer),
    decreases more - fewer,
{
    let short = spec_encode_lines(rows, encodings, fewer);
    if fewer < more {
        lemma_encode_lines_prefix(rows, encodings, fewer, more - 1);
        let middle = spec_encode_lines(rows, encodings, more - 1);
        let long = spec_encode_lines(rows, encodings, more);
        assert(long.subrange(0, short.len() as int) =~= middle.subrange(0, short.len() as int));
    } else {
        assert(short.subrange(0, short.len() as int) =~= short);
    }
}

/// Decoding what was encoded gives the rows back: bytes that hold the encoding of the first
/// `upto` rows at `pos` decode to these rows, and the decoder stops right behind them.
#[verifier::rlimit(50)]
pub proof fn lemma_lines_roundtrip(
    rows: Seq<Seq<u8>>,
    encodings: Seq<LineEncoding>,
    bytes: Seq<u8>,
    pos: int,
    upto: int,
)
    requires
        rows_encodable(rows, encodings),
        rows_binary(rows),
        0 <= upto <= LAYER_HEIGHT,
        0 <= pos,
        pos + spec_encode_lines(rows, encodings, upto).len() <= bytes.len(),
        bytes.subrange(pos, pos + spec_encode_lines(rows, encodings, upto).len())
            == spec_encode_lines(rows, encodings, upto),
    ensures
        spec_decode_lines(encodings, bytes, pos, upto) == Some(
            (rows.subrange(0, upto), pos + spec_encode_lines(rows, encodings, upto).len()),
        ),
    decreases upto,
{
    if upto <= 0 {
        assert(rows.subrange(0, 0) =~= Seq::<Seq<u8>>::empty());
    } else {
        let before = spec_encode_lines(rows, encodings, upto - 1);
        let line = spec_encode_line(encodings[upto - 1], rows[upto - 1]);
        let all = spec_encode_lines(rows, encodings, upto);
        let at = pos + before.len();
        assert(all == before + line);
        assert(bytes.subrange(pos, pos + before.len()) =~= before) by {
            assert forall|k: int| 0 <= k < before.len() implies bytes.subrange(
                pos,
                pos + before.len(),
            )[k] == before[k] by {
                assert(bytes.subrange(pos, pos + all.len())[k] == bytes[pos + k]);
                assert(all[k] == before[k]);
            }
        }
        lemma_lines_roundtrip(rows, encodings, bytes, pos, upto - 1);
        assert(bytes.subrange(at, at + line.len()) =~= line) by {
            assert forall|k: int| 0 <= k < line.len() implies bytes.subrange(at, at + line.len())[k]
                == line[k] by {
                assert(bytes.subrange(pos, pos + all.len())[before.len() + k] == bytes[at + k]);
                assert(all[before.len() + k] == line[k]);
            }
        }
        assert(rows[upto - 1].len() == LINE_WIDTH);
        assert(is_binary(rows[upto - 1]));
        assert(encodable(encodings[upto - 1], rows[upto - 1]));
        lemma_line_roundtrip(encodings[upto - 1], rows[upto - 1], bytes, at);
        assert(rows.subrange(0, upto - 1).push(rows[upto - 1]) =~= rows.subrange(0, upto));
    }
}

/// A layer holds 192 lines of 256 pixels exactly where its rows do.
pub proof fn lemma_shape_of_view(layer: &PPMLayer)
    ensures
        layer.has_shape() == rows_have_shape(layer@),
{
    if layer.has_shape() {
        assert forall|y: int| 0 <= y < layer@.len() implies (#[trigger] layer@[y]).len()
            == LINE_WIDTH by {
            assert(layer.lines@[y]@.len() == LINE_WIDTH);
        }
    }
    if rows_have_shape(layer@) {
        assert forall|y: int| 0 <= y < layer.lines@.len() implies (#[trigger] layer.lines@[y])@.len()
            == LINE_WIDTH by {
            assert(layer@[y].len() == LINE_WIDTH);
        }
    }
}

/// Taking the earlier frame in twice gives the stored difference back: exclusive or undoes
/// itself, whatever the translation.
#[verifier::rlimit(50)]
pub proof fn lemma_diffing_involution(cur: Seq<Seq<u8>>, prev: Seq<Seq<u8>>, tx: int, ty: int)
    requires
        rows_have_shape(cur),
    ensures
        diff_layer(diff_layer(cur, prev, tx, ty), prev, tx, ty) == cur,
{
    let once = diff_layer(cur, prev, tx, ty);
    let twice = diff_layer(once, prev, tx, ty);
    assert forall|y: int| 0 <= y < 192 implies #[trigger] twice[y] == cur[y] by {
        assert(cur[y].len() == LINE_WIDTH);
        assert forall|x: int| 0 <= x < 256 implies #[trigger] twice[y][x] == cur[y][x] by {
            let a = cur[y][x];
            assert(once[y][x] == diff_pixel(cur, prev, tx, ty, x, y));
            assert(twice[y][x] == diff_pixel(once, prev, tx, ty, x, y));
            if 0 <= x - tx < LINE_WIDTH && 0 <= y - ty < LAYER_HEIGHT {
                let b = pixel_bit(prev[y - ty][x - tx]);
                assert((a ^ b) ^ b == a) by (bit_vector);
            }
        }
        assert(twice[y] =~= cur[y]);
    }
    assert(twice =~= cur);
}

} // verus!

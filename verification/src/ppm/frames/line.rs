//! One scanline of a layer: 256 binary pixels, stored under one of four encodings.

use vstd::prelude::*;
use crate::error::PpmError;
use crate::utils::cursor::{
    ByteCursor, spec_u32_be, spec_u32_be_bytes, push_u32_be, push_bytes, lemma_u32_be_roundtrip,
};

verus! {

/// Pixels in a line.
pub const LINE_WIDTH: usize = 256;

/// How the pixels of a line are stored.
#[derive(Debug, Clone, Copy, PartialEq, Eq, Structural)]
pub enum LineEncoding {
    /// Nothing is stored: every pixel is 0.
    Skip,
    /// A flag word, then one byte for each flagged chunk; other chunks are 0.
    Coded,
    /// As `Coded`, but the chunks that are not flagged are 1.
    InvertedCoded,
    /// 32 bytes, one bit per pixel.
    Raw,
}

impl Default for LineEncoding {
    fn default() -> (e: Self)
        ensures
            e == LineEncoding::Raw,
    {
        LineEncoding::Raw
    }
}

impl From<u8> for LineEncoding {
    fn from(value: u8) -> (e: Self) {
        match value {
            0 => LineEncoding::Skip,
            1 => LineEncoding::Coded,
            2 => LineEncoding::InvertedCoded,
            _ => LineEncoding::Raw,
        }
    }
}

impl vstd::std_specs::convert::FromSpecImpl<u8> for LineEncoding {
    open spec fn obeys_from_spec() -> bool {
        true
    }

    open spec fn from_spec(value: u8) -> Self {
        LineEncoding::of_code(value)
    }
}

impl LineEncoding {
    /// The encoding that a code selects; every code above 2 selects `Raw`.
    pub open spec fn of_code(value: u8) -> LineEncoding {
        if value == 0 {
            LineEncoding::Skip
        } else if value == 1 {
            LineEncoding::Coded
        } else if value == 2 {
            LineEncoding::InvertedCoded
        } else {
            LineEncoding::Raw
        }
    }

    /// The two-bit code that selects this encoding.
    pub open spec fn spec_code(self) -> u8 {
        match self {
            LineEncoding::Skip => 0,
            LineEncoding::Coded => 1,
            LineEncoding::InvertedCoded => 2,
            LineEncoding::Raw => 3,
        }
    }

    /// The two-bit code that selects this encoding.
    pub fn code(self) -> (c: u8)
        ensures
            c == self.spec_code(),
            LineEncoding::of_code(c) == self,
    {
        match self {
            LineEncoding::Skip => 0,
            LineEncoding::Coded => 1,
            LineEncoding::InvertedCoded => 2,
            LineEncoding::Raw => 3,
        }
    }
}

/// Bit `bit` of `byte`, counted from the least significant.
pub open spec fn bit_of(byte: u8, bit: u8) -> u8 {
    (byte >> bit) & 1u8
}

/// Every element is 0 or 1.
pub open spec fn is_binary(s: Seq<u8>) -> bool {
    forall|i: int| 0 <= i < s.len() ==> #[trigger] s[i] <= 1
}

/// Every element is 0.
pub open spec fn is_blank(s: Seq<u8>) -> bool {
    forall|i: int| 0 <= i < s.len() ==> #[trigger] s[i] == 0
}

/// Whether the flag word marks chunk `chunk` as stored; chunk 0 is the top bit.
pub open spec fn chunk_flag(flags: u32, chunk: int) -> bool {
    flags & (0x8000_0000u32 >> (chunk as u32)) != 0
}

/// How many of the chunks before `upto` the flag word marks as stored.
pub open spec fn chunks_present(flags: u32, upto: int) -> int
    decreases upto,
{
    if upto <= 0 {
        0
    } else {
        chunks_present(flags, upto - 1) + if chunk_flag(flags, upto - 1) {
            1int
        } else {
            0int
        }
    }
}

/// Pixel `i` of a raw line stored at `pos`.
pub open spec fn raw_pixel(bytes: Seq<u8>, pos: int, i: int) -> u8 {
    bit_of(bytes[pos + i / 8], (i % 8) as u8)
}

/// Pixel `i` of a coded line stored at `pos`.
pub open spec fn coded_pixel(bytes: Seq<u8>, pos: int, inverted: bool, i: int) -> u8 {
    let flags = spec_u32_be(bytes, pos) as u32;
    if chunk_flag(flags, i / 8) {
        bit_of(bytes[pos + 4 + chunks_present(flags, i / 8)], (i % 8) as u8)
    } else if inverted {
        1u8
    } else {
        0u8
    }
}

/// The pixels of a coded line stored at `pos` and the position behind it, or `None` where the
/// bytes end before the line does.
pub open spec fn spec_decode_coded(bytes: Seq<u8>, pos: int, inverted: bool) -> Option<
    (Seq<u8>, int),
> {
    if pos + 4 <= bytes.len() && pos + 4 + chunks_present(spec_u32_be(bytes, pos) as u32, 32)
        <= bytes.len() {
        Some(
            (
                Seq::new(LINE_WIDTH as nat, |i: int| coded_pixel(bytes, pos, inverted, i)),
                pos + 4 + chunks_present(spec_u32_be(bytes, pos) as u32, 32),
            ),
        )
    } else {
        None
    }
}

/// The pixels of a raw line stored at `pos` and the position behind it, or `None` where the
/// bytes end before the line does.
pub open spec fn spec_decode_raw(bytes: Seq<u8>, pos: int) -> Option<(Seq<u8>, int)> {
    if pos + 32 <= bytes.len() {
        Some((Seq::new(LINE_WIDTH as nat, |i: int| raw_pixel(bytes, pos, i)), pos + 32))
    } else {
        None
    }
}

/// The pixels of a line stored at `pos` under `encoding`, and the position behind it.
pub open spec fn spec_decode_line(encoding: LineEncoding, bytes: Seq<u8>, pos: int) -> Option<
    (Seq<u8>, int),
> {
    match encoding {
        LineEncoding::Skip => Some((Seq::new(LINE_WIDTH as nat, |i: int| 0u8), pos)),
        LineEncoding::Coded => spec_decode_coded(bytes, pos, false),
        LineEncoding::InvertedCoded => spec_decode_coded(bytes, pos, true),
        LineEncoding::Raw => spec_decode_raw(bytes, pos),
    }
}

/// The byte that stores the eight pixels from `base` on, first pixel in the lowest bit.
pub open spec fn pack8(px: Seq<u8>, base: int) -> u8 {
    px[base] | (px[base + 1] << 1u8) | (px[base + 2] << 2u8) | (px[base + 3] << 3u8) | (px[base
        + 4] << 4u8) | (px[base + 5] << 5u8) | (px[base + 6] << 6u8) | (px[base + 7] << 7u8)
}

/// The byte that a chunk left out of a coded line stands for.
pub open spec fn fill_byte(inverted: bool) -> u8 {
    if inverted {
        0xFFu8
    } else {
        0u8
    }
}

/// The flag word of a coded line, for the chunks before `upto`.
pub open spec fn coded_flags(px: Seq<u8>, inverted: bool, upto: int) -> u32
    decreases upto,
{
    if upto <= 0 {
        0u32
    } else if pack8(px, 8 * (upto - 1)) != fill_byte(inverted) {
        coded_flags(px, inverted, upto - 1) | (0x8000_0000u32 >> ((upto - 1) as u32))
    } else {
        coded_flags(px, inverted, upto - 1)
    }
}

/// The chunk bytes of a coded line, for the chunks before `upto`.
pub open spec fn coded_payload(px: Seq<u8>, inverted: bool, upto: int) -> Seq<u8>
    decreases upto,
{
    if upto <= 0 {
        Seq::empty()
    } else if pack8(px, 8 * (upto - 1)) != fill_byte(inverted) {
        coded_payload(px, inverted, upto - 1).push(pack8(px, 8 * (upto - 1)))
    } else {
        coded_payload(px, inverted, upto - 1)
    }
}

/// The bytes that store the pixels `px` under `encoding`.
pub open spec fn spec_encode_line(encoding: LineEncoding, px: Seq<u8>) -> Seq<u8> {
    match encoding {
        LineEncoding::Skip => Seq::empty(),
        LineEncoding::Coded => spec_u32_be_bytes(coded_flags(px, false, 32) as int)
            + coded_payload(px, false, 32),
        LineEncoding::InvertedCoded => spec_u32_be_bytes(coded_flags(px, true, 32) as int)
            + coded_payload(px, true, 32),
        LineEncoding::Raw => Seq::new(32, |c: int| pack8(px, 8 * c)),
    }
}

/// Whether `encoding` can store the pixels `px`: `Skip` stores only a blank line.
pub open spec fn encodable(encoding: LineEncoding, px: Seq<u8>) -> bool {
    encoding == LineEncoding::Skip ==> is_blank(px)
}

/// The encoding that stores `px` in the fewest bytes: `Skip` for a blank line, else the
/// shortest of `Coded`, `InvertedCoded` and `Raw`, the earlier of these on a tie.
pub open spec fn spec_minimal_encoding(px: Seq<u8>) -> LineEncoding {
    let coded = 4 + coded_payload(px, false, 32).len();
    let inverted = 4 + coded_payload(px, true, 32).len();
    if is_blank(px) {
        LineEncoding::Skip
    } else if coded <= inverted && coded <= 32 {
        LineEncoding::Coded
    } else if inverted <= 32 {
        LineEncoding::InvertedCoded
    } else {
        LineEncoding::Raw
    }
}

/// One scanline: its pixels and the encoding it is stored under.
#[derive(Debug)]
pub struct PPMLine {
    pub data: Vec<u8>,
    pub encoding: LineEncoding,
}

impl View for PPMLine {
    type V = Seq<u8>;

    open spec fn view(&self) -> Seq<u8> {
        self.data@
    }
}

impl Clone for PPMLine {
    fn clone(&self) -> (line: Self)
        ensures
            line@ == self@,
            line.encoding == self.encoding,
    {
        PPMLine { data: self.data.clone(), encoding: self.encoding }
    }
}

impl Default for PPMLine {
    fn default() -> (line: Self)
        ensures
            line.wf(),
            is_blank(line@),
            line.encoding == LineEncoding::Raw,
    {
        PPMLine::new(LineEncoding::Raw)
    }
}

impl PPMLine {
    /// A line holds 256 pixels, each 0 or 1.
    pub open spec fn wf(&self) -> bool {
        self@.len() == LINE_WIDTH && is_binary(self@)
    }

    /// A blank line that is to be stored under `encoding`.
    pub fn new(encoding: LineEncoding) -> (line: Self)
        ensures
            line.wf(),
            is_blank(line@),
            line.encoding == encoding,
    {
        PPMLine { data: vec![0u8; 256], encoding }
    }

    /// Decodes the line stored at the cursor under this line's encoding.
    pub fn parse(&mut self, cursor: &mut ByteCursor) -> (r: Result<(), PpmError>)
        ensures
            final(cursor).data@ == old(cursor).data@,
            final(self).encoding == old(self).encoding,
            match spec_decode_line(old(self).encoding, old(cursor).data@, old(cursor).pos as int) {
                Some((pixels, next)) => r is Ok && final(self)@ == pixels && final(cursor).pos
                    == next && final(self).wf(),
                None => r == Err::<(), PpmError>(PpmError::Format) && final(self)@ == old(self)@,
            },
    {
        match self.encoding {
            LineEncoding::Skip => {
                self.data = vec![0u8; 256];
                assert(self.data@ =~= Seq::new(LINE_WIDTH as nat, |i: int| 0u8));
                Ok(())
            },
            LineEncoding::Coded => self.parse_coded_line(cursor, false),
            LineEncoding::InvertedCoded => self.parse_coded_line(cursor, true),
            LineEncoding::Raw => self.parse_raw_line(cursor),
        }
    }

    /// Decodes a coded line: a big-endian flag word, then one byte for each flagged chunk of
    /// eight pixels. A chunk that is not flagged is all 0, or all 1 where `inverted`.
    #[verifier::rlimit(50)]
    pub fn parse_coded_line(&mut self, cursor: &mut ByteCursor, inverted: bool) -> (r: Result<
        (),
        PpmError,
    >)
        ensures
            final(cursor).data@ == old(cursor).data@,
            final(self).encoding == old(self).encoding,
            match spec_decode_coded(old(cursor).data@, old(cursor).pos as int, inverted) {
                Some((pixels, next)) => r is Ok && final(self)@ == pixels && final(cursor).pos
                    == next && final(self).wf(),
                None => r == Err::<(), PpmError>(PpmError::Format) && final(self)@ == old(self)@,
            },
    {
        let ghost bytes = cursor.data@;
        let ghost pos = cursor.pos as int;
        let start = cursor.pos;
        let flags = match cursor.read_u32_be() {
            Ok(f) => f,
            Err(e) => {
                return Err(PpmError::Format);
            },
        };
        let mut needed: usize = 0;
        let mut c: u32 = 0;
        while c < 32
            invariant
                c <= 32,
                needed == chunks_present(flags, c as int),
                needed <= c,
            decreases 32 - c,
        {
            if flags & (0x8000_0000u32 >> c) != 0 {
                needed = needed + 1;
            }
            c = c + 1;
        }
        if cursor.available() < needed {
            cursor.seek(start);
            return Err(PpmError::Format);
        }
        let fill: u8 = if inverted {
            1
        } else {
            0
        };
        let len = cursor.data.len();
        let mut pixels: Vec<u8> = Vec::with_capacity(256);
        let mut used: usize = 0;
        let mut c: u32 = 0;
        proof {
            lemma_chunks_present_monotone(flags, 0, 32);
        }
        while c < 32
            invariant
                c <= 32,
                bytes == cursor.data@,
                len == bytes.len(),
                start == pos,
                cursor.pos == pos + 4,
                flags == spec_u32_be(bytes, pos) as u32,
                pos + 4 + chunks_present(flags, 32) <= bytes.len(),
                used == chunks_present(flags, c as int),
                used <= chunks_present(flags, 32),
                fill == if inverted { 1u8 } else { 0u8 },
                pixels@.len() == 8 * c,
                is_binary(pixels@),
                forall|i: int|
                    0 <= i < 8 * c ==> #[trigger] pixels@[i] == coded_pixel(bytes, pos, inverted, i),
            decreases 32 - c,
        {
            proof {
                lemma_chunks_present_monotone(flags, c as int + 1, 32);
            }
            let ghost before = pixels@;
            if flags & (0x8000_0000u32 >> c) != 0 {
                let b = cursor.data[cursor.pos + used];
                unpack_byte(&mut pixels, b);
                used = used + 1;
                assert forall|i: int| 8 * c <= i < 8 * c + 8 implies #[trigger] pixels@[i]
                    == coded_pixel(bytes, pos, inverted, i) by {
                    let j = i - 8 * c;
                    assert(pixels@[before.len() + j] == bit_of(b, j as u8));
                    assert(i / 8 == c as int && i % 8 == j);
                }
            } else {
                fill_chunk(&mut pixels, fill);
                assert forall|i: int| 8 * c <= i < 8 * c + 8 implies #[trigger] pixels@[i]
                    == coded_pixel(bytes, pos, inverted, i) by {
                    let j = i - 8 * c;
                    assert(pixels@[before.len() + j] == fill);
                    assert(i / 8 == c as int);
                }
            }
            c = c + 1;
        }
        cursor.seek(start + 4 + used);
        self.data = pixels;
        assert(self.data@ =~= Seq::new(
            LINE_WIDTH as nat,
            |i: int| coded_pixel(bytes, pos, inverted, i),
        ));
        Ok(())
    }

    /// Decodes a raw line: 32 bytes, eight pixels each, the first pixel in the lowest bit.
    #[verifier::rlimit(50)]
    pub fn parse_raw_line(&mut self, cursor: &mut ByteCursor) -> (r: Result<(), PpmError>)
        ensures
            final(cursor).data@ == old(cursor).data@,
            final(self).encoding == old(self).encoding,
            match spec_decode_raw(old(cursor).data@, old(cursor).pos as int) {
                Some((pixels, next)) => r is Ok && final(self)@ == pixels && final(cursor).pos
                    == next && final(self).wf(),
                None => r == Err::<(), PpmError>(PpmError::Format) && final(self)@ == old(self)@,
            },
    {
        if cursor.available() < 32 {
            return Err(PpmError::Format);
        }
        let ghost bytes = cursor.data@;
        let start = cursor.pos;
        let len = cursor.data.len();
        let mut pixels: Vec<u8> = Vec::with_capacity(256);
        let mut c: usize = 0;
        while c < 32
            invariant
                c <= 32,
                bytes == cursor.data@,
                len == bytes.len(),
                cursor.pos == start,
                start + 32 <= bytes.len(),
                pixels@.len() == 8 * c,
                is_binary(pixels@),
                forall|i: int|
                    0 <= i < 8 * c ==> #[trigger] pixels@[i] == raw_pixel(bytes, start as int, i),
            decreases 32 - c,
        {
            let ghost before = pixels@;
            let b = cursor.data[start + c];
            unpack_byte(&mut pixels, b);
            assert forall|i: int| 8 * c <= i < 8 * c + 8 implies #[trigger] pixels@[i]
                == raw_pixel(bytes, start as int, i) by {
                let j = i - 8 * c;
                assert(pixels@[before.len() + j] == bit_of(b, j as u8));
                assert(i / 8 == c as int && i % 8 == j);
            }
            c = c + 1;
        }
        cursor.seek(start + 32);
        self.data = pixels;
        assert(self.data@ =~= Seq::new(
            LINE_WIDTH as nat,
            |i: int| raw_pixel(bytes, start as int, i),
        ));
        Ok(())
    }

    /// A copy of the pixels.
    pub fn get_data(&self) -> (data: Vec<u8>)
        ensures
            data@ == self@,
    {
        self.data.clone()
    }

    /// The pixel at `x`.
    pub fn get(&self, x: usize) -> (r: Result<u8, PpmError>)
        ensures
            x < self@.len() ==> r == Ok::<u8, PpmError>(self@[x as int]),
            x >= self@.len() ==> r == Err::<u8, PpmError>(PpmError::Bounds),
    {
        if x >= self.data.len() {
            return Err(PpmError::Bounds);
        }
        Ok(self.data[x])
    }

    /// Sets the pixel at `x` to `value`, which is 0 or 1.
    pub fn set(&mut self, x: usize, value: u8) -> (r: Result<(), PpmError>)
        ensures
            final(self).encoding == old(self).encoding,
            x < old(self)@.len() && value <= 1 ==> r is Ok && final(self)@ == old(self)@.update(
                x as int,
                value,
            ),
            !(x < old(self)@.len() && value <= 1) ==> r == Err::<(), PpmError>(PpmError::Bounds)
                && final(self)@ == old(self)@,
            old(self).wf() ==> final(self).wf(),
    {
        if x >= self.data.len() || value > 1 {
            return Err(PpmError::Bounds);
        }
        self.data.set(x, value);
        Ok(())
    }

    /// Replaces the pixel at `x` by its exclusive or with `previous_data`, which is 0 or 1.
    pub fn apply_diffing(&mut self, x: usize, previous_data: u8) -> (r: Result<(), PpmError>)
        ensures
            final(self).encoding == old(self).encoding,
            x < old(self)@.len()
                && previous_data <= 1 ==>
                r is Ok
                && final(self)@ == old(self)@.update(x as int, old(self)@[x as int] ^ previous_data),
            !(x < old(self)@.len() && previous_data <= 1) ==> r == Err::<(), PpmError>(
                PpmError::Bounds,
            ) && final(self)@ == old(self)@,
            old(self).wf() ==> final(self).wf(),
    {
        if x >= self.data.len() || previous_data > 1 {
            return Err(PpmError::Bounds);
        }
        let current = self.data[x];
        assert(current <= 1 && previous_data <= 1 ==> current ^ previous_data <= 1)
            by (bit_vector);
        self.data.set(x, current ^ previous_data);
        Ok(())
    }

    /// Whether every pixel is 0.
    pub fn is_blank(&self) -> (blank: bool)
        ensures
            blank == is_blank(self@),
    {
        let mut i: usize = 0;
        while i < self.data.len()
            invariant
                i <= self.data@.len(),
                forall|k: int| 0 <= k < i ==> #[trigger] self.data@[k] == 0,
            decreases self.data@.len() - i,
        {
            if self.data[i] != 0 {
                return false;
            }
            i = i + 1;
        }
        true
    }

    /// The bytes that store this line under its encoding. `Skip` stores a blank line only:
    /// for any other line under `Skip`, and for a line that does not hold 256 pixels, the
    /// result is `Codec`.
    #[verifier::rlimit(50)]
    pub fn encode(&self) -> (r: Result<Vec<u8>, PpmError>)
        ensures
            self@.len() == LINE_WIDTH && encodable(self.encoding, self@) ==> r is Ok && r->Ok_0@
                == spec_encode_line(self.encoding, self@),
            !(self@.len() == LINE_WIDTH && encodable(self.encoding, self@)) ==> r == Err::<
                Vec<u8>,
                PpmError,
            >(PpmError::Codec),
    {
        if self.data.len() != 256 {
            return Err(PpmError::Codec);
        }
        match self.encoding {
            LineEncoding::Skip => {
                if self.is_blank() {
                    Ok(Vec::new())
                } else {
                    Err(PpmError::Codec)
                }
            },
            LineEncoding::Coded => Ok(self.encode_coded(false)),
            LineEncoding::InvertedCoded => Ok(self.encode_coded(true)),
            LineEncoding::Raw => {
                let mut out: Vec<u8> = Vec::with_capacity(32);
                let mut c: usize = 0;
                while c < 32
                    invariant
                        c <= 32,
                        self.data@.len() == 256,
                        out@.len() == c,
                        forall|k: int| 0 <= k < c ==> #[trigger] out@[k] == pack8(self@, 8 * k),
                    decreases 32 - c,
                {
                    let b = pack_chunk(&self.data, 8 * c);
                    out.push(b);
                    c = c + 1;
                }
                assert(out@ =~= Seq::new(32, |c: int| pack8(self@, 8 * c)));
                Ok(out)
            },
        }
    }

    /// The flag word and the chunk bytes of this line as a coded line.
    #[verifier::rlimit(50)]
    fn encode_coded(&self, inverted: bool) -> (out: Vec<u8>)
        requires
            self@.len() == LINE_WIDTH,
        ensures
            out@ == spec_u32_be_bytes(coded_flags(self@, inverted, 32) as int) + coded_payload(
                self@,
                inverted,
                32,
            ),
    {
        let fill: u8 = if inverted {
            0xFF
        } else {
            0
        };
        let mut flags: u32 = 0;
        let mut payload: Vec<u8> = Vec::new();
        let mut c: u32 = 0;
        while c < 32
            invariant
                c <= 32,
                self.data@.len() == 256,
                fill == fill_byte(inverted),
                flags == coded_flags(self@, inverted, c as int),
                payload@ == coded_payload(self@, inverted, c as int),
            decreases 32 - c,
        {
            let b = pack_chunk(&self.data, 8 * (c as usize));
            if b != fill {
                flags = flags | (0x8000_0000u32 >> c);
                payload.push(b);
            }
            c = c + 1;
        }
        let mut out: Vec<u8> = Vec::new();
        push_u32_be(&mut out, flags);
        push_bytes(&mut out, payload.as_slice());
        out
    }

    /// The encoding that stores this line in the fewest bytes.
    #[verifier::rlimit(50)]
    pub fn minimal_encoding(&self) -> (e: LineEncoding)
        requires
            self@.len() == LINE_WIDTH,
        ensures
            e == spec_minimal_encoding(self@),
    {
        if self.is_blank() {
            return LineEncoding::Skip;
        }
        let mut coded: usize = 4;
        let mut inverted: usize = 4;
        let mut c: usize = 0;
        while c < 32
            invariant
                c <= 32,
                self.data@.len() == 256,
                coded == 4 + coded_payload(self@, false, c as int).len(),
                inverted == 4 + coded_payload(self@, true, c as int).len(),
                coded <= 4 + c,
                inverted <= 4 + c,
            decreases 32 - c,
        {
            let b = pack_chunk(&self.data, 8 * c);
            if b != 0 {
                coded = coded + 1;
            }
            if b != 0xFF {
                inverted = inverted + 1;
            }
            c = c + 1;
        }
        if coded <= inverted && coded <= 32 {
            LineEncoding::Coded
        } else if inverted <= 32 {
            LineEncoding::InvertedCoded
        } else {
            LineEncoding::Raw
        }
    }
}

/// Packs the eight pixels from `base` on into one byte, the first pixel in the lowest bit.
fn pack_chunk(data: &Vec<u8>, base: usize) -> (b: u8)
    requires
        base + 8 <= data@.len(),
    ensures
        b == pack8(data@, base as int),
{
    assert(data.len() == data@.len());
    data[base] | (data[base + 1] << 1u8) | (data[base + 2] << 2u8) | (data[base + 3] << 3u8) | (
    data[base + 4] << 4u8) | (data[base + 5] << 5u8) | (data[base + 6] << 6u8) | (data[base + 7]
        << 7u8)
}

/// Appends eight pixels of the value `value`.
fn fill_chunk(pixels: &mut Vec<u8>, value: u8)
    requires
        value <= 1,
    ensures
        final(pixels)@.len() == old(pixels)@.len() + 8,
        forall|i: int| 0 <= i < old(pixels)@.len() ==> final(pixels)@[i] == old(pixels)@[i],
        forall|j: int| 0 <= j < 8 ==> #[trigger] final(pixels)@[old(pixels)@.len() + j] == value,
        is_binary(old(pixels)@) ==> is_binary(final(pixels)@),
{
    let mut j: u8 = 0;
    while j < 8
        invariant
            j <= 8,
            value <= 1,
            pixels@.len() == old(pixels)@.len() + j,
            forall|i: int| 0 <= i < old(pixels)@.len() ==> pixels@[i] == old(pixels)@[i],
            forall|k: int| 0 <= k < j ==> #[trigger] pixels@[old(pixels)@.len() + k] == value,
            is_binary(old(pixels)@) ==> is_binary(pixels@),
        decreases 8 - j,
    {
        pixels.push(value);
        j = j + 1;
    }
}

/// Appends the eight bits of `b`, lowest first, as eight pixels.
fn unpack_byte(pixels: &mut Vec<u8>, b: u8)
    ensures
        final(pixels)@.len() == old(pixels)@.len() + 8,
        forall|i: int| 0 <= i < old(pixels)@.len() ==> final(pixels)@[i] == old(pixels)@[i],
        forall|j: int|
            0 <= j < 8 ==> #[trigger] final(pixels)@[old(pixels)@.len() + j] == bit_of(b, j as u8),
        is_binary(old(pixels)@) ==> is_binary(final(pixels)@),
{
    let mut j: u8 = 0;
    while j < 8
        invariant
            j <= 8,
            pixels@.len() == old(pixels)@.len() + j,
            forall|i: int| 0 <= i < old(pixels)@.len() ==> pixels@[i] == old(pixels)@[i],
            forall|k: int|
                0 <= k < j ==> #[trigger] pixels@[old(pixels)@.len() + k] == bit_of(b, k as u8),
            is_binary(old(pixels)@) ==> is_binary(pixels@),
        decreases 8 - j,
    {
        let bit = (b >> j) & 1;
        assert((b >> j) & 1 <= 1) by (bit_vector);
        pixels.push(bit);
        j = j + 1;
    }
}

proof fn lemma_pack_bits(bit_0: u8, bit_1: u8, bit_2: u8, bit_3: u8, bit_4: u8, bit_5: u8, bit_6: u8, bit_7: u8)
    by (bit_vector)
    requires
        bit_0 <= 1,
        bit_1 <= 1,
        bit_2 <= 1,
        bit_3 <= 1,
        bit_4 <= 1,
        bit_5 <= 1,
        bit_6 <= 1,
        bit_7 <= 1,
    ensures
        ({
            let byte = bit_0 | (bit_1 << 1u8) | (bit_2 << 2u8) | (bit_3 << 3u8) | (bit_4 << 4u8) | (bit_5 << 5u8) | (bit_6
                << 6u8) | (bit_7 << 7u8);
            &&& (byte >> 0u8) & 1u8 == bit_0
            &&& (byte >> 1u8) & 1u8 == bit_1
            &&& (byte >> 2u8) & 1u8 == bit_2
            &&& (byte >> 3u8) & 1u8 == bit_3
            &&& (byte >> 4u8) & 1u8 == bit_4
            &&& (byte >> 5u8) & 1u8 == bit_5
            &&& (byte >> 6u8) & 1u8 == bit_6
            &&& (byte >> 7u8) & 1u8 == bit_7
        }),
{
}

/// Bit `j` of the byte packed from the pixels at `base` is pixel `base + j`.
pub proof fn lemma_pack8_bit(px: Seq<u8>, base: int, j: int)
    requires
        is_binary(px),
        0 <= base,
        base + 8 <= px.len(),
        0 <= j < 8,
    ensures
        bit_of(pack8(px, base), j as u8) == px[base + j],
{
    assert(px[base] <= 1 && px[base + 1] <= 1 && px[base + 2] <= 1 && px[base + 3] <= 1);
    assert(px[base + 4] <= 1 && px[base + 5] <= 1 && px[base + 6] <= 1 && px[base + 7] <= 1);
    lemma_pack_bits(
        px[base],
        px[base + 1],
        px[base + 2],
        px[base + 3],
        px[base + 4],
        px[base + 5],
        px[base + 6],
        px[base + 7],
    );
}

/// A chunk that packs to the fill byte holds eight pixels of the fill value.
proof fn lemma_fill_chunk_pixels(px: Seq<u8>, inverted: bool, base: int, j: int)
    requires
        is_binary(px),
        0 <= base,
        base + 8 <= px.len(),
        0 <= j < 8,
        pack8(px, base) == fill_byte(inverted),
    ensures
        px[base + j] == if inverted { 1u8 } else { 0u8 },
{
    lemma_pack8_bit(px, base, j);
    let k = j as u8;
    assert(k < 8 ==> (0xFFu8 >> k) & 1u8 == 1u8 && (0u8 >> k) & 1u8 == 0u8) by (bit_vector);
}

proof fn lemma_flag_or(f: u32, k: u32, c: u32)
    by (bit_vector)
    requires
        k < 32,
        c < 32,
    ensures
        (((f | (0x8000_0000u32 >> k)) & (0x8000_0000u32 >> c)) != 0) == ((f & (0x8000_0000u32
            >> c)) != 0 || c == k),
        (0u32 & (0x8000_0000u32 >> c)) == 0,
{
}

/// The flag word built from the first `upto` chunks flags exactly those among them that
/// differ from the fill byte.
#[verifier::rlimit(50)]
proof fn lemma_coded_flags(px: Seq<u8>, inverted: bool, upto: int, c: int)
    requires
        0 <= upto <= 32,
        0 <= c < 32,
    ensures
        chunk_flag(coded_flags(px, inverted, upto), c) == (c < upto && pack8(px, 8 * c)
            != fill_byte(inverted)),
    decreases upto,
{
    if upto <= 0 {
        lemma_flag_or(0, 0, c as u32);
    } else {
        lemma_coded_flags(px, inverted, upto - 1, c);
        lemma_flag_or(coded_flags(px, inverted, upto - 1), (upto - 1) as u32, c as u32);
    }
}

/// The chunk bytes for the first `c` chunks are as many as the flag word counts before `c`.
#[verifier::rlimit(50)]
proof fn lemma_payload_len(px: Seq<u8>, inverted: bool, c: int)
    requires
        0 <= c <= 32,
    ensures
        chunks_present(coded_flags(px, inverted, 32), c) == coded_payload(px, inverted, c).len(),
    decreases c,
{
    if c > 0 {
        lemma_payload_len(px, inverted, c - 1);
        lemma_coded_flags(px, inverted, 32, c - 1);
    }
}

/// The chunk bytes for the first `c` chunks open those for the first `upto`.
#[verifier::rlimit(50)]
proof fn lemma_payload_prefix(px: Seq<u8>, inverted: bool, c: int, upto: int)
    requires
        0 <= c <= upto,
    ensures
        coded_payload(px, inverted, c).len() <= coded_payload(px, inverted, upto).len(),
        forall|k: int|
            0 <= k < coded_payload(px, inverted, c).len() ==> #[trigger] coded_payload(
                px,
                inverted,
                upto,
            )[k] == coded_payload(px, inverted, c)[k],
    decreases upto - c,
{
    if c < upto {
        lemma_payload_prefix(px, inverted, c, upto - 1);
    }
}

/// Decoding what was encoded gives the line back: for pixels `px` that `encoding` can store,
/// bytes that hold their encoding at `pos` decode to `px`, and the decoder stops right behind
/// them. This holds under all four encodings, and so of the blank line under `Skip` and of the
/// line of ones under `InvertedCoded`.
#[verifier::rlimit(50)]
pub proof fn lemma_line_roundtrip(encoding: LineEncoding, px: Seq<u8>, bytes: Seq<u8>, pos: int)
    requires
        px.len() == LINE_WIDTH,
        is_binary(px),
        encodable(encoding, px),
        0 <= pos,
        pos + spec_encode_line(encoding, px).len() <= bytes.len(),
        bytes.subrange(pos, pos + spec_encode_line(encoding, px).len()) == spec_encode_line(
            encoding,
            px,
        ),
    ensures
        spec_decode_line(encoding, bytes, pos) == Some(
            (px, pos + spec_encode_line(encoding, px).len()),
        ),
{
    let stored = spec_encode_line(encoding, px);
    let window = bytes.subrange(pos, pos + stored.len());
    match encoding {
        LineEncoding::Skip => {
            assert(Seq::new(LINE_WIDTH as nat, |i: int| 0u8) =~= px);
        },
        LineEncoding::Raw => {
            let decoded = Seq::new(LINE_WIDTH as nat, |i: int| raw_pixel(bytes, pos, i));
            assert forall|i: int| 0 <= i < 256 implies decoded[i] == px[i] by {
                let c = i / 8;
                let j = i % 8;
                assert(window[c] == bytes[pos + c]);
                assert(stored[c] == pack8(px, 8 * c));
                lemma_pack8_bit(px, 8 * c, j);
            }
            assert(decoded =~= px);
        },
        LineEncoding::Coded => {
            lemma_coded_roundtrip(px, false, bytes, pos);
        },
        LineEncoding::InvertedCoded => {
            lemma_coded_roundtrip(px, true, bytes, pos);
        },
    }
}

#[verifier::rlimit(50)]
proof fn lemma_coded_roundtrip(px: Seq<u8>, inverted: bool, bytes: Seq<u8>, pos: int)
    requires
        px.len() == LINE_WIDTH,
        is_binary(px),
        0 <= pos,
        pos + 4 + coded_payload(px, inverted, 32).len() <= bytes.len(),
        bytes.subrange(pos, pos + 4 + coded_payload(px, inverted, 32).len()) == spec_u32_be_bytes(
            coded_flags(px, inverted, 32) as int,
        ) + coded_payload(px, inverted, 32),
    ensures
        spec_decode_coded(bytes, pos, inverted) == Some(
            (px, pos + 4 + coded_payload(px, inverted, 32).len()),
        ),
{
    let flags = coded_flags(px, inverted, 32);
    let payload = coded_payload(px, inverted, 32);
    let head = spec_u32_be_bytes(flags as int);
    let stored = head + payload;
    let window = bytes.subrange(pos, pos + 4 + payload.len());
    assert(bytes.subrange(pos, pos + 4) =~= head) by {
        assert forall|k: int| 0 <= k < 4 implies bytes.subrange(pos, pos + 4)[k] == head[k] by {
            assert(window[k] == bytes[pos + k]);
            assert(stored[k] == head[k]);
        }
    }
    lemma_u32_be_roundtrip(flags as int, bytes, pos);
    assert(spec_u32_be(bytes, pos) as u32 == flags);
    lemma_payload_len(px, inverted, 32);
    let decoded = Seq::new(LINE_WIDTH as nat, |i: int| coded_pixel(bytes, pos, inverted, i));
    assert forall|i: int| 0 <= i < 256 implies decoded[i] == px[i] by {
        let c = i / 8;
        let j = i % 8;
        lemma_coded_flags(px, inverted, 32, c);
        lemma_payload_len(px, inverted, c);
        if chunk_flag(flags, c) {
            let at = coded_payload(px, inverted, c).len() as int;
            lemma_payload_prefix(px, inverted, c + 1, 32);
            assert(coded_payload(px, inverted, c + 1)[at] == pack8(px, 8 * c));
            assert(payload[at] == pack8(px, 8 * c));
            assert(window[4 + at] == bytes[pos + 4 + at]);
            assert(stored[4 + at] == payload[at]);
            lemma_pack8_bit(px, 8 * c, j);
        } else {
            lemma_fill_chunk_pixels(px, inverted, 8 * c, j);
        }
    }
    assert(decoded =~= px);
}

/// Decoding the encoding of a line gives the line, and reads the encoding to its end.
pub proof fn lemma_decode_of_encode(encoding: LineEncoding, px: Seq<u8>)
    requires
        px.len() == LINE_WIDTH,
        is_binary(px),
        encodable(encoding, px),
    ensures
        spec_decode_line(encoding, spec_encode_line(encoding, px), 0) == Some(
            (px, spec_encode_line(encoding, px).len() as int),
        ),
{
    let stored = spec_encode_line(encoding, px);
    assert(stored.subrange(0, stored.len() as int) =~= stored);
    lemma_line_roundtrip(encoding, px, stored, 0);
}

/// The shortest encoding can store the line, so what it stores decodes to the line.
pub proof fn lemma_minimal_encoding_roundtrip(px: Seq<u8>)
    requires
        px.len() == LINE_WIDTH,
        is_binary(px),
    ensures
        encodable(spec_minimal_encoding(px), px),
        spec_decode_line(
            spec_minimal_encoding(px),
            spec_encode_line(spec_minimal_encoding(px), px),
            0,
        ) == Some((px, spec_encode_line(spec_minimal_encoding(px), px).len() as int)),
{
    lemma_decode_of_encode(spec_minimal_encoding(px), px);
}

/// The count of stored chunks grows with the number of chunks looked at.
pub proof fn lemma_chunks_present_monotone(flags: u32, a: int, b: int)
    requires
        a <= b,
    ensures
        chunks_present(flags, a) <= chunks_present(flags, b),
        0 <= a ==> chunks_present(flags, b) <= chunks_present(flags, a) + (b - a),
        0 <= chunks_present(flags, a),
    decreases b - a,
{
    if a < b {
        lemma_chunks_present_monotone(flags, a, b - 1);
    } else {
        lemma_chunks_present_nonneg(flags, a);
    }
}

proof fn lemma_chunks_present_nonneg(flags: u32, a: int)
    ensures
        0 <= chunks_present(flags, a),
        a >= 0 ==> chunks_present(flags, a) <= a,
    decreases a,
{
    if a > 0 {
        lemma_chunks_present_nonneg(flags, a - 1);
    }
}

} // verus!

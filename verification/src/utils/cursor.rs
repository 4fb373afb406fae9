//! A seekable reader over a byte slice, and the writer's little-endian helpers.

use vstd::prelude::*;
use crate::error::PpmError;

verus! {

/// The unsigned 16-bit little-endian value stored at `at`.
pub open spec fn spec_u16_le(s: Seq<u8>, at: int) -> int {
    s[at] as int + 256 * (s[at + 1] as int)
}

/// The unsigned 32-bit little-endian value stored at `at`.
pub open spec fn spec_u32_le(s: Seq<u8>, at: int) -> int {
    s[at] as int + 256 * (s[at + 1] as int) + 65536 * (s[at + 2] as int) + 16777216 * (s[at
        + 3] as int)
}

/// The unsigned 32-bit big-endian value stored at `at`.
pub open spec fn spec_u32_be(s: Seq<u8>, at: int) -> int {
    16777216 * (s[at] as int) + 65536 * (s[at + 1] as int) + 256 * (s[at + 2] as int) + (s[at
        + 3] as int)
}

/// The unsigned 64-bit little-endian value stored at `at`.
pub open spec fn spec_u64_le(s: Seq<u8>, at: int) -> int {
    spec_u32_le(s, at) + 4294967296 * spec_u32_le(s, at + 4)
}

/// A byte read as a two's complement signed value.
pub open spec fn spec_i8(b: u8) -> int {
    if b < 128 {
        b as int
    } else {
        b as int - 256
    }
}

/// The two bytes that store `v` in little-endian order.
pub open spec fn spec_u16_le_bytes(v: int) -> Seq<u8> {
    seq![(v % 256) as u8, (v / 256 % 256) as u8]
}

/// The four bytes that store `v` in little-endian order.
pub open spec fn spec_u32_le_bytes(v: int) -> Seq<u8> {
    seq![
        (v % 256) as u8,
        (v / 256 % 256) as u8,
        (v / 65536 % 256) as u8,
        (v / 16777216 % 256) as u8,
    ]
}

/// The four bytes that store `v` in big-endian order.
pub open spec fn spec_u32_be_bytes(v: int) -> Seq<u8> {
    seq![
        (v / 16777216 % 256) as u8,
        (v / 65536 % 256) as u8,
        (v / 256 % 256) as u8,
        (v % 256) as u8,
    ]
}

/// The eight bytes that store `v` in little-endian order.
pub open spec fn spec_u64_le_bytes(v: int) -> Seq<u8> {
    spec_u32_le_bytes(v % 4294967296) + spec_u32_le_bytes(v / 4294967296)
}

/// A read position over a borrowed byte buffer. Reads past the end fail and leave the
/// position where it was.
pub struct ByteCursor<'a> {
    pub data: &'a [u8],
    pub pos: usize,
}

impl<'a> ByteCursor<'a> {
    /// The number of bytes from the position to the end; negative past the end.
    pub open spec fn remaining(&self) -> int {
        self.data@.len() - self.pos
    }

    /// A cursor at the start of `data`.
    pub fn new(data: &'a [u8]) -> (c: Self)
        ensures
            c.data@ == data@,
            c.pos == 0,
    {
        ByteCursor { data, pos: 0 }
    }

    /// How many bytes are left to read.
    pub fn available(&self) -> (n: usize)
        ensures
            n == if self.remaining() >= 0 { self.remaining() } else { 0 },
    {
        if self.pos <= self.data.len() {
            self.data.len() - self.pos
        } else {
            0
        }
    }

    /// The current position.
    pub fn position(&self) -> (p: usize)
        ensures
            p == self.pos,
    {
        self.pos
    }

    /// Moves to `pos`, which may lie past the end: the next read then fails.
    pub fn seek(&mut self, pos: usize)
        ensures
            final(self).pos == pos,
            final(self).data@ == old(self).data@,
    {
        self.pos = pos;
    }

    /// Reads one byte.
    pub fn read_u8(&mut self) -> (r: Result<u8, PpmError>)
        ensures
            final(self).data@ == old(self).data@,
            old(self).remaining() >= 1 ==> r == Ok::<u8, PpmError>(
                old(self).data@[old(self).pos as int],
            ) && final(self).pos == old(self).pos + 1,
            old(self).remaining() < 1 ==>
                r == Err::<u8, PpmError>(PpmError::Format)
                && final(self).pos == old(self).pos,
    {
        if self.pos >= self.data.len() {
            return Err(PpmError::Format);
        }
        let b = self.data[self.pos];
        self.pos = self.pos + 1;
        Ok(b)
    }

    /// Reads one byte as a signed value.
    pub fn read_i8(&mut self) -> (r: Result<i8, PpmError>)
        ensures
            final(self).data@ == old(self).data@,
            old(self).remaining() >= 1 ==> r == Ok::<i8, PpmError>(
                spec_i8(old(self).data@[old(self).pos as int]) as i8,
            ) && final(self).pos == old(self).pos + 1,
            old(self).remaining() < 1 ==>
                r == Err::<i8, PpmError>(PpmError::Format)
                && final(self).pos == old(self).pos,
    {
        if self.pos >= self.data.len() {
            return Err(PpmError::Format);
        }
        let b = self.data[self.pos];
        self.pos = self.pos + 1;
        if b < 128 {
            Ok(b as i8)
        } else {
            Ok((b as i16 - 256) as i8)
        }
    }

    /// Reads a little-endian `u16`.
    pub fn read_u16_le(&mut self) -> (r: Result<u16, PpmError>)
        ensures
            final(self).data@ == old(self).data@,
            old(self).remaining() >= 2 ==> r == Ok::<u16, PpmError>(
                spec_u16_le(old(self).data@, old(self).pos as int) as u16,
            ) && final(self).pos == old(self).pos + 2,
            old(self).remaining() < 2 ==>
                r == Err::<u16, PpmError>(PpmError::Format)
                && final(self).pos == old(self).pos,
    {
        if self.pos > self.data.len() || self.data.len() - self.pos < 2 {
            return Err(PpmError::Format);
        }
        let b0 = self.data[self.pos] as u16;
        let b1 = self.data[self.pos + 1] as u16;
        self.pos = self.pos + 2;
        Ok(b0 + 256 * b1)
    }

    /// Reads a little-endian `u32`.
    pub fn read_u32_le(&mut self) -> (r: Result<u32, PpmError>)
        ensures
            final(self).data@ == old(self).data@,
            old(self).remaining() >= 4 ==> r == Ok::<u32, PpmError>(
                spec_u32_le(old(self).data@, old(self).pos as int) as u32,
            ) && final(self).pos == old(self).pos + 4,
            old(self).remaining() < 4 ==>
                r == Err::<u32, PpmError>(PpmError::Format)
                && final(self).pos == old(self).pos,
    {
        if self.pos > self.data.len() || self.data.len() - self.pos < 4 {
            return Err(PpmError::Format);
        }
        let b0 = self.data[self.pos] as u32;
        let b1 = self.data[self.pos + 1] as u32;
        let b2 = self.data[self.pos + 2] as u32;
        let b3 = self.data[self.pos + 3] as u32;
        self.pos = self.pos + 4;
        Ok(b0 + 256 * b1 + 65536 * b2 + 16777216 * b3)
    }

    /// Reads a big-endian `u32`.
    pub fn read_u32_be(&mut self) -> (r: Result<u32, PpmError>)
        ensures
            final(self).data@ == old(self).data@,
            old(self).remaining() >= 4 ==> r == Ok::<u32, PpmError>(
                spec_u32_be(old(self).data@, old(self).pos as int) as u32,
            ) && final(self).pos == old(self).pos + 4,
            old(self).remaining() < 4 ==>
                r == Err::<u32, PpmError>(PpmError::Format)
                && final(self).pos == old(self).pos,
    {
        if self.pos > self.data.len() || self.data.len() - self.pos < 4 {
            return Err(PpmError::Format);
        }
        let b0 = self.data[self.pos] as u32;
        let b1 = self.data[self.pos + 1] as u32;
        let b2 = self.data[self.pos + 2] as u32;
        let b3 = self.data[self.pos + 3] as u32;
        self.pos = self.pos + 4;
        Ok(16777216 * b0 + 65536 * b1 + 256 * b2 + b3)
    }

    /// Reads a little-endian `u64`.
    pub fn read_u64_le(&mut self) -> (r: Result<u64, PpmError>)
        ensures
            final(self).data@ == old(self).data@,
            old(self).remaining() >= 8 ==> r == Ok::<u64, PpmError>(
                spec_u64_le(old(self).data@, old(self).pos as int) as u64,
            ) && final(self).pos == old(self).pos + 8,
            old(self).remaining() < 8 ==>
                r == Err::<u64, PpmError>(PpmError::Format)
                && final(self).pos == old(self).pos,
    {
        if self.pos > self.data.len() || self.data.len() - self.pos < 8 {
            return Err(PpmError::Format);
        }
        let b0 = self.data[self.pos] as u64;
        let b1 = self.data[self.pos + 1] as u64;
        let b2 = self.data[self.pos + 2] as u64;
        let b3 = self.data[self.pos + 3] as u64;
        let b4 = self.data[self.pos + 4] as u64;
        let b5 = self.data[self.pos + 5] as u64;
        let b6 = self.data[self.pos + 6] as u64;
        let b7 = self.data[self.pos + 7] as u64;
        self.pos = self.pos + 8;
        let low: u64 = b0 + 256 * b1 + 65536 * b2 + 16777216 * b3;
        let high: u64 = b4 + 256 * b5 + 65536 * b6 + 16777216 * b7;
        Ok(low + 4294967296 * high)
    }

    /// Reads the next `count` bytes.
    #[verifier::rlimit(50)]
    pub fn read_bytes(&mut self, count: usize) -> (r: Result<Vec<u8>, PpmError>)
        ensures
            final(self).data@ == old(self).data@,
            old(self).remaining() >= count ==> r is Ok && r->Ok_0@ == old(self).data@.subrange(
                old(self).pos as int,
                old(self).pos + count,
            ) && final(self).pos == old(self).pos + count,
            old(self).remaining() < count ==> r == Err::<Vec<u8>, PpmError>(PpmError::Format)
                && final(self).pos == old(self).pos,
    {
        if self.pos > self.data.len() || self.data.len() - self.pos < count {
            return Err(PpmError::Format);
        }
        let start = self.pos;
        let len = self.data.len();
        let mut out: Vec<u8> = Vec::with_capacity(count);
        assert(out@ =~= self.data@.subrange(start as int, start + 0));
        let mut i: usize = 0;
        while i < count
            invariant
                i <= count,
                start + count <= len,
                len == self.data@.len(),
                out@ == self.data@.subrange(start as int, start + i),
            decreases count - i,
        {
            out.push(self.data[start + i]);
            i = i + 1;
            assert(out@ =~= self.data@.subrange(start as int, start + i));
        }
        self.pos = start + count;
        Ok(out)
    }

    /// Moves forward by `count` bytes without reading them.
    pub fn skip(&mut self, count: usize) -> (r: Result<(), PpmError>)
        ensures
            final(self).data@ == old(self).data@,
            old(self).remaining() >= count ==> r is Ok && final(self).pos == old(self).pos
                + count,
            old(self).remaining() < count ==> r == Err::<(), PpmError>(PpmError::Format)
                && final(self).pos == old(self).pos,
    {
        if self.pos > self.data.len() || self.data.len() - self.pos < count {
            return Err(PpmError::Format);
        }
        self.pos = self.pos + count;
        Ok(())
    }
}

/// Appends `v` as four little-endian bytes.
pub fn push_u32_le(out: &mut Vec<u8>, v: u32)
    ensures
        final(out)@ == old(out)@ + spec_u32_le_bytes(v as int),
{
    out.push((v % 256) as u8);
    out.push((v / 256 % 256) as u8);
    out.push((v / 65536 % 256) as u8);
    out.push((v / 16777216) as u8);
    assert(final(out)@ =~= old(out)@ + spec_u32_le_bytes(v as int));
}

/// Appends `v` as four big-endian bytes.
pub fn push_u32_be(out: &mut Vec<u8>, v: u32)
    ensures
        final(out)@ == old(out)@ + spec_u32_be_bytes(v as int),
{
    out.push((v / 16777216) as u8);
    out.push((v / 65536 % 256) as u8);
    out.push((v / 256 % 256) as u8);
    out.push((v % 256) as u8);
    assert(final(out)@ =~= old(out)@ + spec_u32_be_bytes(v as int));
}

/// Appends a copy of `bytes`.
pub fn push_bytes(out: &mut Vec<u8>, bytes: &[u8])
    ensures
        final(out)@ == old(out)@ + bytes@,
{
    let mut i: usize = 0;
    while i < bytes.len()
        invariant
            i <= bytes@.len(),
            out@ == old(out)@ + bytes@.subrange(0, i as int),
        decreases bytes@.len() - i,
    {
        out.push(bytes[i]);
        i = i + 1;
        assert(out@ =~= old(out)@ + bytes@.subrange(0, i as int));
    }
    assert(bytes@.subrange(0, bytes@.len() as int) =~= bytes@);
}

/// Appends `count` zero bytes.
pub fn push_zeros(out: &mut Vec<u8>, count: usize)
    ensures
        final(out)@ == old(out)@ + Seq::new(count as nat, |i: int| 0u8),
{
    let mut i: usize = 0;
    while i < count
        invariant
            i <= count,
            out@ == old(out)@ + Seq::new(i as nat, |k: int| 0u8),
        decreases count - i,
    {
        out.push(0u8);
        i = i + 1;
        assert(out@ =~= old(out)@ + Seq::new(i as nat, |k: int| 0u8));
    }
}

/// Reading back what `spec_u16_le_bytes` wrote gives the value.
pub proof fn lemma_u16_le_roundtrip(v: int, s: Seq<u8>, at: int)
    requires
        0 <= v < 65536,
        0 <= at,
        at + 2 <= s.len(),
        s.subrange(at, at + 2) == spec_u16_le_bytes(v),
    ensures
        spec_u16_le(s, at) == v,
{
    let w = s.subrange(at, at + 2);
    assert(w[0] == s[at] && w[1] == s[at + 1]);
}

/// Reading back what `spec_u32_le_bytes` wrote gives the value.
pub proof fn lemma_u32_le_roundtrip(v: int, s: Seq<u8>, at: int)
    requires
        0 <= v < 4294967296,
        0 <= at,
        at + 4 <= s.len(),
        s.subrange(at, at + 4) == spec_u32_le_bytes(v),
    ensures
        spec_u32_le(s, at) == v,
{
    let w = s.subrange(at, at + 4);
    assert(w[0] == s[at] && w[1] == s[at + 1] && w[2] == s[at + 2] && w[3] == s[at + 3]);
}

/// Reading back what `spec_u32_be_bytes` wrote gives the value.
pub proof fn lemma_u32_be_roundtrip(v: int, s: Seq<u8>, at: int)
    requires
        0 <= v < 4294967296,
        0 <= at,
        at + 4 <= s.len(),
        s.subrange(at, at + 4) == spec_u32_be_bytes(v),
    ensures
        spec_u32_be(s, at) == v,
{
    let w = s.subrange(at, at + 4);
    assert(w[0] == s[at] && w[1] == s[at + 1] && w[2] == s[at + 2] && w[3] == s[at + 3]);
}

/// Reading back what `spec_u64_le_bytes` wrote gives the value.
#[verifier::rlimit(50)]
pub proof fn lemma_u64_le_roundtrip(v: int, s: Seq<u8>, at: int)
    requires
        0 <= v < 18446744073709551616,
        0 <= at,
        at + 8 <= s.len(),
        s.subrange(at, at + 8) == spec_u64_le_bytes(v),
    ensures
        spec_u64_le(s, at) == v,
{
    let w = s.subrange(at, at + 8);
    let lo = spec_u32_le_bytes(v % 4294967296);
    let hi = spec_u32_le_bytes(v / 4294967296);
    assert(w == lo + hi);
    assert(s.subrange(at, at + 4) =~= lo) by {
        assert forall|i: int| 0 <= i < 4 implies s.subrange(at, at + 4)[i] == lo[i] by {
            assert(w[i] == s[at + i]);
            assert((lo + hi)[i] == lo[i]);
        }
    }
    assert(s.subrange(at + 4, at + 8) =~= hi) by {
        assert forall|i: int| 0 <= i < 4 implies s.subrange(at + 4, at + 8)[i] == hi[i] by {
            assert(w[4 + i] == s[at + 4 + i]);
            assert((lo + hi)[4 + i] == hi[i]);
        }
    }
    lemma_u32_le_roundtrip(v % 4294967296, s, at);
    lemma_u32_le_roundtrip(v / 4294967296, s, at + 4);
}

/// A segment between a prefix and a rest is found right behind the prefix.
pub proof fn lemma_concat_segment(prefix: Seq<u8>, segment: Seq<u8>, rest: Seq<u8>)
    ensures
        (prefix + segment + rest).len() == prefix.len() + segment.len() + rest.len(),
        (prefix + segment + rest).subrange(
            prefix.len() as int,
            (prefix.len() + segment.len()) as int,
        ) == segment,
{
    assert((prefix + segment + rest).subrange(
        prefix.len() as int,
        (prefix.len() + segment.len()) as int,
    ) =~= segment);
}

/// A part of a window of the bytes is the same part of the bytes, moved by the place of the
/// window.
pub proof fn lemma_window_part(bytes: Seq<u8>, pos: int, window: Seq<u8>, from: int, to: int)
    requires
        0 <= pos,
        pos + window.len() <= bytes.len(),
        bytes.subrange(pos, pos + window.len()) == window,
        0 <= from <= to <= window.len(),
    ensures
        bytes.subrange(pos + from, pos + to) == window.subrange(from, to),
        forall|k: int| 0 <= k < window.len() ==> bytes[pos + k] == #[trigger] window[k],
{
    assert forall|k: int| 0 <= k < window.len() implies bytes[pos + k] == #[trigger] window[k] by {
        assert(bytes.subrange(pos, pos + window.len())[k] == bytes[pos + k]);
    }
    assert(bytes.subrange(pos + from, pos + to) =~= window.subrange(from, to));
}

} // verus!

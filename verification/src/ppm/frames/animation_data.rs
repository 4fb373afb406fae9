//! The animation section: the flags, the table of frame offsets and the stored frames.

use vstd::prelude::*;
use crate::error::PpmError;
use crate::ppm::frames::animation_flags::PPMAnimationFlags;
use crate::ppm::frames::frame::{
    FrameView, PPMFrame, previous_view, spec_decode_frame, spec_frame_image_byte, FRAME_IMAGE_BYTES,
};
use crate::utils::cursor::ByteCursor;

verus! {

/// The animation section.
#[derive(Debug)]
pub struct PPMAnimationData {
    /// Bytes that the table of offsets takes in the file.
    pub frame_offset_table_size: u16,
    pub animation_flags: PPMAnimationFlags,
    /// Where each frame starts in `animation_data`.
    pub animation_offsets: Vec<u32>,
    /// The stored frames.
    pub animation_data: Vec<u8>,
}

impl Clone for PPMAnimationData {
    fn clone(&self) -> (copy: Self)
        ensures
            copy.frame_offset_table_size == self.frame_offset_table_size,
            copy.animation_flags == self.animation_flags,
            copy.animation_offsets@ == self.animation_offsets@,
            copy.animation_data@ == self.animation_data@,
    {
        PPMAnimationData {
            frame_offset_table_size: self.frame_offset_table_size,
            animation_flags: self.animation_flags,
            animation_offsets: self.animation_offsets.clone(),
            animation_data: self.animation_data.clone(),
        }
    }
}

impl Default for PPMAnimationData {
    fn default() -> (data: Self)
        ensures
            data.frame_offset_table_size == 0,
            data.animation_flags.flags == 0,
            data.animation_offsets@.len() == 0,
            data.animation_data@.len() == 0,
    {
        PPMAnimationData {
            frame_offset_table_size: 0,
            animation_flags: PPMAnimationFlags { flags: 0 },
            animation_offsets: Vec::new(),
            animation_data: Vec::new(),
        }
    }
}

/// The first `upto` frames: frame `i` is decoded at `offsets[i]` of the stored frames, and
/// each frame but the first has the frame before it to take in. The first failure is the
/// result.
pub open spec fn spec_decode_frames(
    data: Seq<u8>,
    offsets: Seq<u32>,
    flags: PPMAnimationFlags,
    upto: int,
) -> Result<Seq<FrameView>, PpmError>
    decreases upto,
{
    if upto <= 0 {
        Ok(Seq::empty())
    } else {
        match spec_decode_frames(data, offsets, flags, upto - 1) {
            Err(e) => Err(e),
            Ok(frames) => match spec_decode_frame(
                data,
                offsets[upto - 1] as int,
                flags,
                if upto == 1 {
                    None
                } else {
                    Some(frames.last())
                },
            ) {
                Err(e) => Err(e),
                Ok((frame, next)) => Ok(frames.push(frame)),
            },
        }
    }
}

/// Decoding as many frames as there are offsets gives as many frames.
pub proof fn lemma_decode_frames_len(
    data: Seq<u8>,
    offsets: Seq<u32>,
    flags: PPMAnimationFlags,
    upto: int,
)
    requires
        0 <= upto,
    ensures
        spec_decode_frames(data, offsets, flags, upto) is Ok ==> spec_decode_frames(
            data,
            offsets,
            flags,
            upto,
        )->Ok_0.len() == upto,
    decreases upto,
{
    if upto > 0 {
        lemma_decode_frames_len(data, offsets, flags, upto - 1);
    }
}

/// A failure stays: where the first frames cannot be decoded, no longer run of frames can.
pub proof fn lemma_decode_frames_error(
    data: Seq<u8>,
    offsets: Seq<u32>,
    flags: PPMAnimationFlags,
    failed: int,
    upto: int,
)
    requires
        failed <= upto,
        spec_decode_frames(data, offsets, flags, failed) is Err,
    ensures
        spec_decode_frames(data, offsets, flags, upto) == spec_decode_frames(
            data,
            offsets,
            flags,
            failed,
        ),
    decreases upto - failed,
{
    if failed < upto {
        lemma_decode_frames_error(data, offsets, flags, failed, upto - 1);
    }
}

/// The raw video of the frames: the painted frames one after another, each 256 by 192
/// pixels of four bytes.
pub open spec fn spec_video_bytes(frames: Seq<FrameView>) -> Seq<u8> {
    Seq::new(
        frames.len() * FRAME_IMAGE_BYTES as nat,
        |at: int|
            spec_frame_image_byte(
                frames[at / FRAME_IMAGE_BYTES as int],
                at % FRAME_IMAGE_BYTES as int,
            ),
    )
}

impl PPMAnimationData {
    /// The raw video of the animation: all frames decoded and painted, one after another.
    #[verifier::rlimit(50)]
    pub fn video_stream(&self) -> (r: Result<Vec<u8>, PpmError>)
        ensures
            match spec_decode_frames(
                self.animation_data@,
                self.animation_offsets@,
                self.animation_flags,
                self.animation_offsets@.len() as int,
            ) {
                Ok(frames) => r is Ok && r->Ok_0@ == spec_video_bytes(frames),
                Err(e) => r is Err && r->Err_0 == e,
            },
    {
        let frames = match self.get_frames() {
            Ok(f) => f,
            Err(e) => {
                return Err(e);
            },
        };
        let ghost views = spec_decode_frames(
            self.animation_data@,
            self.animation_offsets@,
            self.animation_flags,
            self.animation_offsets@.len() as int,
        )->Ok_0;
        let mut out: Vec<u8> = Vec::new();
        let mut k: usize = 0;
        while k < frames.len()
            invariant
                k <= frames@.len(),
                frames@.len() == views.len(),
                forall|i: int| 0 <= i < frames@.len() ==>
                    (#[trigger] frames@[i])@ == views[i]
                    && frames@[i].wf(),
                out@.len() == k * FRAME_IMAGE_BYTES,
                forall|at: int| 0 <= at < out@.len() ==>
                    #[trigger] out@[at] == spec_video_bytes(views)[at],
            decreases frames@.len() - k,
        {
            let image = match frames[k].get_image() {
                Ok(i) => i,
                Err(e) => {
                    return Err(PpmError::Bounds);
                },
            };
            let ghost before = out@;
            let ghost painted = image.pixels@;
            crate::utils::cursor::push_bytes(&mut out, image.pixels.as_slice());
            assert(painted.len() == FRAME_IMAGE_BYTES) by {
                assert(4 * (256 * 192) == 196608) by (nonlinear_arith);
            }
            assert forall|at: int| 0 <= at < out@.len() implies #[trigger] out@[at]
                == spec_video_bytes(views)[at] by {
                if at >= before.len() {
                    let i = at - before.len();
                    assert(out@[at] == painted[i]);
                    assert(painted[i] == frames@[k as int].spec_image_byte(i));
                    assert(at == k * 196608 + i);
                    assert(at / 196608 == k as int && at % 196608 == i) by (nonlinear_arith)
                        requires
                            at == k * 196608 + i,
                            0 <= i < 196608,
                            0 <= k,
                    ;
                } else {
                    assert(out@[at] == before[at]);
                }
            }
            k = k + 1;
        }
        assert(out@ =~= spec_video_bytes(views));
        Ok(out)
    }

    /// Decodes all frames, one for each offset, in their order.
    #[verifier::rlimit(50)]
    pub fn get_frames(&self) -> (r: Result<Vec<PPMFrame>, PpmError>)
        ensures
            match spec_decode_frames(
                self.animation_data@,
                self.animation_offsets@,
                self.animation_flags,
                self.animation_offsets@.len() as int,
            ) {
                Ok(frames) => r is Ok && r->Ok_0@.len() == frames.len() && forall|i: int|
                    0 <= i < frames.len() ==> (#[trigger] r->Ok_0@[i])@ == frames[i]
                        && r->Ok_0@[i].wf(),
                Err(e) => r is Err && r->Err_0 == e,
            },
            r is Ok ==> r->Ok_0@.len() == self.animation_offsets@.len(),
    {
        let ghost data = self.animation_data@;
        let ghost offsets = self.animation_offsets@;
        let flags = self.animation_flags;
        let count = self.animation_offsets.len();
        let mut frames: Vec<PPMFrame> = Vec::new();
        let mut cursor = ByteCursor::new(self.animation_data.as_slice());
        let mut i: usize = 0;
        while i < count
            invariant
                i <= count,
                count == offsets.len(),
                data == self.animation_data@,
                offsets == self.animation_offsets@,
                flags == self.animation_flags,
                cursor.data@ == data,
                frames@.len() == i,
                spec_decode_frames(data, offsets, flags, i as int) is Ok,
                spec_decode_frames(data, offsets, flags, i as int)->Ok_0.len() == i,
                forall|k: int|
                    0 <= k < i ==> (#[trigger] frames@[k])@ == spec_decode_frames(
                        data,
                        offsets,
                        flags,
                        i as int,
                    )->Ok_0[k] && frames@[k].wf(),
            decreases count - i,
        {
            let previous_frame = if i == 0 {
                None
            } else {
                Some(frames[i - 1].clone())
            };
            let ghost before = spec_decode_frames(data, offsets, flags, i as int)->Ok_0;
            assert(previous_view(previous_frame) == if i == 0 {
                None::<FrameView>
            } else {
                Some(before.last())
            });
            cursor.seek(self.animation_offsets[i] as usize);
            let frame = match PPMFrame::parse(&mut cursor, &flags, previous_frame) {
                Ok(f) => f,
                Err(e) => {
                    proof {
                        lemma_decode_frames_error(
                            data,
                            offsets,
                            flags,
                            i as int + 1,
                            count as int,
                        );
                    }
                    return Err(e);
                },
            };
            frames.push(frame);
            i = i + 1;
        }
        proof {
            lemma_decode_frames_len(data, offsets, flags, count as int);
        }
        Ok(frames)
    }
}

} // verus!

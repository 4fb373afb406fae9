//! The header of the audio section: which effects sound on which frame, the sizes of the
//! tracks and the playback speeds.

use vstd::prelude::*;
use crate::error::PpmError;
use crate::ppm::constants::{PPM_AUDIO_SAMPLE_RATE, PPM_FRAMERATE_DOUBLED};

verus! {

/// An exact fraction; the denominator is never zero.
#[derive(Debug, Clone, Copy, PartialEq, Eq, Structural)]
pub struct Ratio {
    pub numerator: u128,
    pub denominator: u128,
}

/// The header of the audio section.
#[derive(Debug)]
pub struct PPMAudioHeader {
    /// One byte for each frame: bit 0, 1 and 2 say that effect 1, 2 and 3 starts there.
    pub sound_effect_flags: Vec<u8>,
    pub bgm_track_size: u32,
    pub se1_track_size: u32,
    pub se2_track_size: u32,
    pub se3_track_size: u32,
    pub frame_playback_speed: u8,
    pub frame_playback_speed_when_recording: u8,
}

/// What the header holds.
pub struct AudioHeaderView {
    pub sound_effect_flags: Seq<u8>,
    pub bgm_track_size: u32,
    pub se1_track_size: u32,
    pub se2_track_size: u32,
    pub se3_track_size: u32,
    pub frame_playback_speed: u8,
    pub frame_playback_speed_when_recording: u8,
}

impl View for PPMAudioHeader {
    type V = AudioHeaderView;

    open spec fn view(&self) -> AudioHeaderView {
        AudioHeaderView {
            sound_effect_flags: self.sound_effect_flags@,
            bgm_track_size: self.bgm_track_size,
            se1_track_size: self.se1_track_size,
            se2_track_size: self.se2_track_size,
            se3_track_size: self.se3_track_size,
            frame_playback_speed: self.frame_playback_speed,
            frame_playback_speed_when_recording: self.frame_playback_speed_when_recording,
        }
    }
}

impl Clone for PPMAudioHeader {
    fn clone(&self) -> (copy: Self)
        ensures
            copy@ == self@,
    {
        PPMAudioHeader {
            sound_effect_flags: self.sound_effect_flags.clone(),
            bgm_track_size: self.bgm_track_size,
            se1_track_size: self.se1_track_size,
            se2_track_size: self.se2_track_size,
            se3_track_size: self.se3_track_size,
            frame_playback_speed: self.frame_playback_speed,
            frame_playback_speed_when_recording: self.frame_playback_speed_when_recording,
        }
    }
}

impl Default for PPMAudioHeader {
    fn default() -> (h: Self)
        ensures
            h@ == (AudioHeaderView {
                sound_effect_flags: Seq::empty(),
                bgm_track_size: 0,
                se1_track_size: 0,
                se2_track_size: 0,
                se3_track_size: 0,
                frame_playback_speed: 0,
                frame_playback_speed_when_recording: 0,
            }),
    {
        PPMAudioHeader {
            sound_effect_flags: Vec::new(),
            bgm_track_size: 0,
            se1_track_size: 0,
            se2_track_size: 0,
            se3_track_size: 0,
            frame_playback_speed: 0,
            frame_playback_speed_when_recording: 0,
        }
    }
}

/// Twice the frames per second at a playback speed from 0 to 8; speed 8 is the slowest.
pub open spec fn spec_framerate_doubled(speed: u8) -> int {
    PPM_FRAMERATE_DOUBLED@[8 - speed] as int
}

/// The frame rates are positive and at most 30 frames per second.
pub proof fn lemma_framerate_range(speed: u8)
    requires
        speed <= 8,
    ensures
        1 <= spec_framerate_doubled(speed) <= 60,
{
}

/// The frame rate at a playback speed.
fn framerate_of(speed: u8) -> (r: Result<Ratio, PpmError>)
    ensures
        speed <= 8 ==> r == Ok::<Ratio, PpmError>(
            Ratio { numerator: spec_framerate_doubled(speed) as u128, denominator: 2 },
        ),
        speed > 8 ==> r == Err::<Ratio, PpmError>(PpmError::Format),
{
    if speed > 8 {
        return Err(PpmError::Format);
    }
    proof {
        lemma_framerate_range(speed);
    }
    Ok(Ratio { numerator: PPM_FRAMERATE_DOUBLED[(8 - speed) as usize] as u128, denominator: 2 })
}

/// The samples per second at which a background track is to be decoded: the device's rate
/// times the frame rate over the frame rate at recording, rounded down.
pub open spec fn spec_bgm_rate(speed: u8, speed_when_recording: u8) -> int {
    (PPM_AUDIO_SAMPLE_RATE * spec_framerate_doubled(speed)) / spec_framerate_doubled(
        speed_when_recording,
    )
}

impl PPMAudioHeader {
    /// The number of frames behind the first: the length of the animation in frame times.
    pub open spec fn spec_frame_count(&self) -> int {
        if self.sound_effect_flags@.len() > 0 {
            self.sound_effect_flags@.len() - 1
        } else {
            0
        }
    }

    /// The samples per second at which the background track is to be decoded.
    pub open spec fn spec_bgm_sample_rate(&self) -> int {
        spec_bgm_rate(self.frame_playback_speed, self.frame_playback_speed_when_recording)
    }

    /// Whether both playback speeds select a frame rate.
    pub open spec fn speeds_valid(&self) -> bool {
        self.frame_playback_speed <= 8 && self.frame_playback_speed_when_recording <= 8
    }

    /// The frames per second of the animation, as a fraction over 2.
    pub fn get_framerate(&self) -> (r: Result<Ratio, PpmError>)
        ensures
            self.frame_playback_speed <= 8 ==> r == Ok::<Ratio, PpmError>(
                Ratio {
                    numerator: spec_framerate_doubled(self.frame_playback_speed) as u128,
                    denominator: 2,
                },
            ),
            self.frame_playback_speed > 8 ==> r == Err::<Ratio, PpmError>(PpmError::Format),
    {
        framerate_of(self.frame_playback_speed)
    }

    /// The frames per second at which the background track was recorded, as a fraction
    /// over 2.
    pub fn get_bgm_framerate(&self) -> (r: Result<Ratio, PpmError>)
        ensures
            self.frame_playback_speed_when_recording <= 8 ==> r == Ok::<Ratio, PpmError>(
                Ratio {
                    numerator: spec_framerate_doubled(
                        self.frame_playback_speed_when_recording,
                    ) as u128,
                    denominator: 2,
                },
            ),
            self.frame_playback_speed_when_recording > 8 ==> r == Err::<Ratio, PpmError>(
                PpmError::Format,
            ),
    {
        framerate_of(self.frame_playback_speed_when_recording)
    }

    /// The length of the animation in seconds: the number of frames behind the first over
    /// the frame rate.
    pub fn get_duration(&self) -> (r: Result<Ratio, PpmError>)
        ensures
            self.frame_playback_speed <= 8 ==> r == Ok::<Ratio, PpmError>(
                Ratio {
                    numerator: (2 * self.spec_frame_count()) as u128,
                    denominator: spec_framerate_doubled(self.frame_playback_speed) as u128,
                },
            ),
            self.frame_playback_speed > 8 ==> r == Err::<Ratio, PpmError>(PpmError::Format),
    {
        let framerate = match self.get_framerate() {
            Ok(f) => f,
            Err(e) => {
                return Err(e);
            },
        };
        let frame_count: usize = if self.sound_effect_flags.len() > 0 {
            self.sound_effect_flags.len() - 1
        } else {
            0
        };
        Ok(Ratio { numerator: 2 * (frame_count as u128), denominator: framerate.numerator })
    }

    /// The samples per second at which the background track is to be decoded.
    pub fn get_bgm_sample_rate(&self) -> (r: Result<i32, PpmError>)
        ensures
            self.speeds_valid() ==> r == Ok::<i32, PpmError>(self.spec_bgm_sample_rate() as i32)
                && 136 <= self.spec_bgm_sample_rate() <= 490800,
            !self.speeds_valid() ==> r == Err::<i32, PpmError>(PpmError::Format),
    {
        let framerate = match self.get_framerate() {
            Ok(f) => f,
            Err(e) => {
                return Err(e);
            },
        };
        let bgm_framerate = match self.get_bgm_framerate() {
            Ok(f) => f,
            Err(e) => {
                return Err(e);
            },
        };
        proof {
            lemma_framerate_range(self.frame_playback_speed);
            lemma_framerate_range(self.frame_playback_speed_when_recording);
        }
        let scaled: u128 = 8180 * framerate.numerator;
        let rate: u128 = scaled / bgm_framerate.numerator;
        assert(136 <= rate <= 490800) by (nonlinear_arith)
            requires
                rate == scaled / bgm_framerate.numerator,
                8180 <= scaled <= 490800,
                1 <= bgm_framerate.numerator <= 60,
        ;
        Ok(rate as i32)
    }
}

} // verus!

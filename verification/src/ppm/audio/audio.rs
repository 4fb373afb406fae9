//! The audio section as a whole.

use vstd::prelude::*;
use crate::ppm::audio::audio_header::{AudioHeaderView, PPMAudioHeader};
use crate::error::PpmError;
use crate::ppm::audio::wav_container::{
    WavContainer, WavView, spec_pcm_bytes, spec_wav_resample,
};

verus! {

/// The header of the audio section, the decoded tracks and their mix.
#[derive(Debug)]
pub struct PPMAudio {
    pub audio_header: PPMAudioHeader,
    pub background_track: Option<WavContainer>,
    pub sound_effect_1_track: Option<WavContainer>,
    pub sound_effect_2_track: Option<WavContainer>,
    pub sound_effect_3_track: Option<WavContainer>,
    pub mixed_tracks: Option<WavContainer>,
}

/// What a track holds, where there is one.
pub open spec fn track_view(track: Option<WavContainer>) -> Option<WavView> {
    match track {
        Some(t) => Some(t@),
        None => None,
    }
}

/// What the audio section holds.
pub struct AudioView {
    pub header: AudioHeaderView,
    pub background: Option<WavView>,
    pub effect_1: Option<WavView>,
    pub effect_2: Option<WavView>,
    pub effect_3: Option<WavView>,
    pub mixed: Option<WavView>,
}

impl View for PPMAudio {
    type V = AudioView;

    open spec fn view(&self) -> AudioView {
        AudioView {
            header: self.audio_header@,
            background: track_view(self.background_track),
            effect_1: track_view(self.sound_effect_1_track),
            effect_2: track_view(self.sound_effect_2_track),
            effect_3: track_view(self.sound_effect_3_track),
            mixed: track_view(self.mixed_tracks),
        }
    }
}

/// The audio section of a container that holds no sound: no flags, no tracks, no mix.
pub open spec fn spec_empty_audio() -> AudioView {
    AudioView {
        header: AudioHeaderView {
            sound_effect_flags: Seq::empty(),
            bgm_track_size: 0,
            se1_track_size: 0,
            se2_track_size: 0,
            se3_track_size: 0,
            frame_playback_speed: 0,
            frame_playback_speed_when_recording: 0,
        },
        background: None,
        effect_1: None,
        effect_2: None,
        effect_3: None,
        mixed: None,
    }
}

impl Default for PPMAudio {
    fn default() -> (audio: Self)
        ensures
            audio@ == spec_empty_audio(),
    {
        PPMAudio {
            audio_header: PPMAudioHeader::default(),
            background_track: None,
            sound_effect_1_track: None,
            sound_effect_2_track: None,
            sound_effect_3_track: None,
            mixed_tracks: None,
        }
    }
}

/// The mixed timeline, or where there is none an empty sound with no format.
pub open spec fn spec_mixed_or_empty(mixed: Option<WavView>) -> WavView {
    match mixed {
        Some(m) => m,
        None => WavView { samples: Seq::empty(), channels: 0, sample_rate: 0, bits_per_sample: 0 },
    }
}

impl PPMAudio {
    /// The raw audio of the animation: the mixed timeline at `sample_rate` samples per
    /// second, two bytes for each sample, the low byte first.
    pub fn audio_stream(&self, sample_rate: i32) -> (r: Result<Vec<u8>, PpmError>)
        ensures
            match spec_wav_resample(spec_mixed_or_empty(self@.mixed), sample_rate) {
                Ok(sound) => r is Ok && r->Ok_0@ == spec_pcm_bytes(sound.samples),
                Err(e) => r is Err && r->Err_0 == e,
            },
    {
        let mixed = match &self.mixed_tracks {
            Some(m) => m.clone(),
            None => WavContainer::default(),
        };
        match mixed.resample(sample_rate) {
            Ok(sound) => Ok(sound.get_pcm_bytes()),
            Err(e) => Err(e),
        }
    }
}

/// Clones a track, where there is one.
pub fn clone_track(track: &Option<WavContainer>) -> (copy: Option<WavContainer>)
    ensures
        track_view(copy) == track_view(*track),
{
    match track {
        Some(t) => Some(t.clone()),
        None => None,
    }
}

impl Clone for PPMAudio {
    fn clone(&self) -> (audio: Self)
        ensures
            audio@ == self@,
    {
        PPMAudio {
            audio_header: self.audio_header.clone(),
            background_track: clone_track(&self.background_track),
            sound_effect_1_track: clone_track(&self.sound_effect_1_track),
            sound_effect_2_track: clone_track(&self.sound_effect_2_track),
            sound_effect_3_track: clone_track(&self.sound_effect_3_track),
            mixed_tracks: clone_track(&self.mixed_tracks),
        }
    }
}

/// The codec state stored in front of a track.
#[derive(Debug, Clone, Copy, PartialEq, Eq, Structural)]
pub struct AudioTrackHeader {
    pub predictor: i16,
    pub step_index: u8,
    pub imported: u8,
}

impl Default for AudioTrackHeader {
    fn default() -> (h: Self)
        ensures
            h == (AudioTrackHeader { predictor: 0, step_index: 0, imported: 0 }),
    {
        AudioTrackHeader { predictor: 0, step_index: 0, imported: 0 }
    }
}

} // verus!

//! Reading of the audio section: its header, the stored tracks and the mixed timeline.

use vstd::prelude::*;
use crate::error::PpmError;
use crate::ppm::audio::adpcm_decoder::{spec_decode_adpcm, spec_initial_state, spec_mix};
use crate::ppm::audio::adpcm_ima::decode_adpcm;
use crate::ppm::audio::audio::{AudioTrackHeader, AudioView, PPMAudio, track_view};
use crate::ppm::audio::audio_header::{
    AudioHeaderView, PPMAudioHeader, lemma_framerate_range, spec_bgm_rate, spec_framerate_doubled,
};
use crate::ppm::audio::wav_container::{WavContainer, WavView, spec_wav_mix, spec_wav_resample};
use crate::ppm::constants::{
    ADPCM_STATE_HEADER_SIZE, PPM_AUDIO_PLAYBACK_SAMPLE_RATE, PPM_AUDIO_SAMPLE_RATE,
};
use crate::utils::cursor::{ByteCursor, lemma_window_part, spec_u16_le, spec_u32_le};

verus! {

/// Bytes of the sound header: four track sizes, two speeds and 14 reserved bytes.
pub const SOUND_HEADER_SIZE: usize = 32;

/// How many bytes of padding bring `sound_header_start` to the next multiple of four, where
/// the sound header starts.
pub open spec fn spec_header_padding(sound_header_start: int) -> int {
    (4 - sound_header_start % 4) % 4
}

/// Computes the padding in front of the sound header.
pub fn header_padding(sound_header_start: u64) -> (padding: usize)
    ensures
        padding == spec_header_padding(sound_header_start as int),
        padding < 4,
{
    ((4 - sound_header_start % 4) % 4) as usize
}

/// The header stored at `pos`, with the position behind it: one flag byte for each of
/// `frame_count` frames, the alignment padding, four track sizes, two speeds and 14 reserved
/// bytes. `None` where the bytes end before the header does.
pub open spec fn spec_read_header(
    bytes: Seq<u8>,
    pos: int,
    frame_count: int,
    sound_header_start: int,
) -> Option<(AudioHeaderView, int)> {
    let at = pos + frame_count + spec_header_padding(sound_header_start);
    if at + SOUND_HEADER_SIZE <= bytes.len() {
        Some(
            (
                AudioHeaderView {
                    sound_effect_flags: bytes.subrange(pos, pos + frame_count),
                    bgm_track_size: spec_u32_le(bytes, at) as u32,
                    se1_track_size: spec_u32_le(bytes, at + 4) as u32,
                    se2_track_size: spec_u32_le(bytes, at + 8) as u32,
                    se3_track_size: spec_u32_le(bytes, at + 12) as u32,
                    frame_playback_speed: bytes[at + 16],
                    frame_playback_speed_when_recording: bytes[at + 17],
                },
                at + SOUND_HEADER_SIZE,
            ),
        )
    } else {
        None
    }
}

/// The codec state stored in the four bytes at `pos`.
pub open spec fn spec_track_header(bytes: Seq<u8>, pos: int) -> AudioTrackHeader {
    AudioTrackHeader {
        predictor: (if spec_u16_le(bytes, pos) < 32768 {
            spec_u16_le(bytes, pos)
        } else {
            spec_u16_le(bytes, pos) - 65536
        }) as i16,
        step_index: bytes[pos + 2],
        imported: bytes[pos + 3],
    }
}

/// The track of `size` bytes stored at `pos`, decoded at `source_rate` samples per second
/// and resampled for playback. A size of 0 says that there is no track. `Format` where the
/// size is less than the codec state or the bytes end before the track does.
pub open spec fn spec_read_track(bytes: Seq<u8>, pos: int, size: u32, source_rate: i32) -> Result<
    Option<WavView>,
    PpmError,
> {
    if size == 0 {
        Ok(None)
    } else if size < ADPCM_STATE_HEADER_SIZE || pos + size > bytes.len() {
        Err(PpmError::Format)
    } else {
        let header = spec_track_header(bytes, pos);
        let decoded = WavView {
            samples: spec_decode_adpcm(
                bytes.subrange(pos + ADPCM_STATE_HEADER_SIZE, pos + size),
                spec_initial_state(header.predictor, header.step_index),
            ),
            channels: 1,
            sample_rate: source_rate,
            bits_per_sample: 16,
        };
        match spec_wav_resample(decoded, PPM_AUDIO_PLAYBACK_SAMPLE_RATE) {
            Ok(track) => Ok(Some(track)),
            Err(e) => Err(e),
        }
    }
}

/// The samples of the mixed timeline: the length of the animation in seconds times the
/// playback rate, rounded up. `doubled` is twice the frame rate.
pub open spec fn spec_master_len(frame_count: int, doubled: int) -> int {
    (frame_count * (2 * PPM_AUDIO_PLAYBACK_SAMPLE_RATE) + doubled - 1) / doubled
}

/// The sample at which frame `i` starts: `i` times the samples in one frame, rounded up.
pub open spec fn spec_frame_offset(i: int, doubled: int) -> int {
    (i * (2 * PPM_AUDIO_PLAYBACK_SAMPLE_RATE) + doubled - 1) / doubled
}

/// The timeline with `track` mixed in at `offset`, where there is such a track and it is
/// `active`; an earlier failure stays.
pub open spec fn spec_mix_track(
    master: Result<WavView, PpmError>,
    track: Option<WavView>,
    active: bool,
    offset: int,
) -> Result<WavView, PpmError> {
    match master {
        Ok(m) => if active && track is Some {
            spec_wav_mix(m, track->Some_0, offset)
        } else {
            Ok(m)
        },
        Err(e) => Err(e),
    }
}

/// The timeline after the effects of the first `upto` frames are mixed in: on each frame,
/// effect 1 where bit 0 of its flag byte is set, then effect 2 for bit 1, then effect 3 for
/// bit 2, each at the sample where the frame starts.
pub open spec fn spec_mix_frames(
    master: Result<WavView, PpmError>,
    flags: Seq<u8>,
    effect_1: Option<WavView>,
    effect_2: Option<WavView>,
    effect_3: Option<WavView>,
    doubled: int,
    upto: int,
) -> Result<WavView, PpmError>
    decreases upto,
{
    if upto <= 0 {
        master
    } else {
        let before = spec_mix_frames(master, flags, effect_1, effect_2, effect_3, doubled, upto - 1);
        let flag = flags[upto - 1];
        let offset = spec_frame_offset(upto - 1, doubled);
        spec_mix_track(
            spec_mix_track(
                spec_mix_track(before, effect_1, flag % 2 == 1, offset),
                effect_2,
                (flag / 2) % 2 == 1,
                offset,
            ),
            effect_3,
            (flag / 4) % 2 == 1,
            offset,
        )
    }
}

/// The silent timeline: mono, 16 bits, at the playback rate.
pub open spec fn spec_silence(len: int) -> WavView {
    WavView {
        samples: Seq::new(len as nat, |i: int| 0i16),
        channels: 1,
        sample_rate: PPM_AUDIO_PLAYBACK_SAMPLE_RATE,
        bits_per_sample: 16,
    }
}

/// The mixed timeline of the tracks: silence for the length of the animation, the
/// background track mixed in at the start, then the effects frame by frame. `Format` where
/// the playback speed selects no frame rate, `Codec` where the timeline does not fit in
/// memory.
pub open spec fn spec_mix_audio(
    header: AudioHeaderView,
    background: Option<WavView>,
    effect_1: Option<WavView>,
    effect_2: Option<WavView>,
    effect_3: Option<WavView>,
) -> Result<WavView, PpmError> {
    if header.frame_playback_speed > 8 {
        Err(PpmError::Format)
    } else {
        let doubled = spec_framerate_doubled(header.frame_playback_speed);
        let frame_count = if header.sound_effect_flags.len() > 0 {
            header.sound_effect_flags.len() - 1
        } else {
            0
        };
        let len = spec_master_len(frame_count, doubled);
        if len > usize::MAX {
            Err(PpmError::Codec)
        } else {
            spec_mix_frames(
                spec_mix_track(Ok(spec_silence(len)), background, true, 0),
                header.sound_effect_flags,
                effect_1,
                effect_2,
                effect_3,
                doubled,
                header.sound_effect_flags.len() as int,
            )
        }
    }
}

/// Mixing from an offset at or behind the end of the timeline changes nothing, so every
/// such offset gives the same result.
pub proof fn lemma_mix_beyond_end(this: WavView, other: WavView, first: int, second: int)
    requires
        first >= this.samples.len(),
        second >= this.samples.len(),
    ensures
        spec_wav_mix(this, other, first) == spec_wav_mix(this, other, second),
{
    if this.channels == other.channels {
        match spec_wav_resample(other, this.sample_rate) {
            Ok(adjusted) => {
                assert(spec_mix(adjusted.samples, this.samples, first) =~= spec_mix(
                    adjusted.samples,
                    this.samples,
                    second,
                ));
            },
            Err(e) => {},
        }
    }
}

/// Mixes one track into the timeline, where there is such a track and it is active.
fn mix_track(master: WavContainer, track: &Option<WavContainer>, active: bool, offset: u128) -> (r:
    Result<WavContainer, PpmError>)
    ensures
        match spec_mix_track(Ok(master@), track_view(*track), active, offset as int) {
            Ok(view) => r is Ok && r->Ok_0@ == view,
            Err(e) => r is Err && r->Err_0 == e,
        },
{
    if !active {
        return Ok(master);
    }
    match track {
        Some(t) => {
            let index: usize = if offset > usize::MAX as u128 {
                usize::MAX
            } else {
                offset as usize
            };
            assert(master.buffer.len() == master@.samples.len());
            proof {
                if offset > usize::MAX as u128 {
                    lemma_mix_beyond_end(master@, t@, offset as int, index as int);
                }
            }
            master.mix(t, index)
        },
        None => Ok(master),
    }
}

/// Mixes the tracks into one timeline at the playback rate.
#[verifier::rlimit(50)]
pub fn mix_audio(audio: &PPMAudio) -> (r: Result<Option<WavContainer>, PpmError>)
    ensures
        match spec_mix_audio(
            audio.audio_header@,
            track_view(audio.background_track),
            track_view(audio.sound_effect_1_track),
            track_view(audio.sound_effect_2_track),
            track_view(audio.sound_effect_3_track),
        ) {
            Ok(view) => r is Ok && r->Ok_0 is Some && r->Ok_0->Some_0@ == view,
            Err(e) => r is Err && r->Err_0 == e,
        },
{
    let header = &audio.audio_header;
    if header.frame_playback_speed > 8 {
        return Err(PpmError::Format);
    }
    let framerate = match header.get_framerate() {
        Ok(f) => f,
        Err(e) => {
            return Err(e);
        },
    };
    let doubled: u128 = framerate.numerator;
    proof {
        lemma_framerate_range(header.frame_playback_speed);
    }
    let flag_count = header.sound_effect_flags.len();
    let frame_count: usize = if flag_count > 0 {
        flag_count - 1
    } else {
        0
    };
    let length: u128 = (frame_count as u128 * 65440 + doubled - 1) / doubled;
    if length > usize::MAX as u128 {
        return Err(PpmError::Codec);
    }
    let silence: Vec<i16> = vec![0i16; length as usize];
    assert(silence@ =~= spec_silence(length as int).samples);
    let mut master = WavContainer::from_samples(silence, 1, PPM_AUDIO_PLAYBACK_SAMPLE_RATE, 16);
    let ghost flags = header.sound_effect_flags@;
    let ghost start = spec_mix_track(
        Ok(spec_silence(length as int)),
        track_view(audio.background_track),
        true,
        0,
    );
    let ghost e1 = track_view(audio.sound_effect_1_track);
    let ghost e2 = track_view(audio.sound_effect_2_track);
    let ghost e3 = track_view(audio.sound_effect_3_track);
    let ghost expected = spec_mix_audio(audio.audio_header@, track_view(audio.background_track), e1, e2, e3);
    assert(expected == spec_mix_frames(start, flags, e1, e2, e3, doubled as int, flag_count as int));
    master = match mix_track(master, &audio.background_track, true, 0) {
        Ok(m) => m,
        Err(e) => {
            proof {
                lemma_mix_frames_error(start, flags, e1, e2, e3, doubled as int, 0, flag_count as int);
            }
            return Err(e);
        },
    };
    let mut i: usize = 0;
    while i < flag_count
        invariant
            i <= flag_count,
            flag_count == flags.len(),
            expected == spec_mix_audio(
                audio.audio_header@,
                track_view(audio.background_track),
                track_view(audio.sound_effect_1_track),
                track_view(audio.sound_effect_2_track),
                track_view(audio.sound_effect_3_track),
            ),
            expected == spec_mix_frames(start, flags, e1, e2, e3, doubled as int, flag_count as int),
            flags == audio.audio_header.sound_effect_flags@,
            1 <= doubled <= 60,
            e1 == track_view(audio.sound_effect_1_track),
            e2 == track_view(audio.sound_effect_2_track),
            e3 == track_view(audio.sound_effect_3_track),
            spec_mix_frames(start, flags, e1, e2, e3, doubled as int, i as int) == Ok::<
                WavView,
                PpmError,
            >(master@),
        decreases flag_count - i,
    {
        let flag = audio.audio_header.sound_effect_flags[i];
        let offset: u128 = (i as u128 * 65440 + doubled - 1) / doubled;
        assert(offset == spec_frame_offset(i as int, doubled as int));
        let ghost before = spec_mix_frames(start, flags, e1, e2, e3, doubled as int, i as int);
        let ghost after_1 = spec_mix_track(before, e1, flag % 2 == 1, offset as int);
        let ghost after_2 = spec_mix_track(after_1, e2, (flag / 2) % 2 == 1, offset as int);
        let ghost after_3 = spec_mix_track(after_2, e3, (flag / 4) % 2 == 1, offset as int);
        assert(spec_mix_frames(start, flags, e1, e2, e3, doubled as int, i as int + 1) == after_3);
        master = match mix_track(master, &audio.sound_effect_1_track, flag % 2 == 1, offset) {
            Ok(m) => m,
            Err(e) => {
                proof {
                    lemma_mix_frames_error(
                        start,
                        flags,
                        e1,
                        e2,
                        e3,
                        doubled as int,
                        i as int + 1,
                        flag_count as int,
                    );
                }
                return Err(e);
            },
        };
        master = match mix_track(master, &audio.sound_effect_2_track, (flag / 2) % 2 == 1, offset) {
            Ok(m) => m,
            Err(e) => {
                proof {
                    lemma_mix_frames_error(
                        start,
                        flags,
                        e1,
                        e2,
                        e3,
                        doubled as int,
                        i as int + 1,
                        flag_count as int,
                    );
                }
                return Err(e);
            },
        };
        master = match mix_track(master, &audio.sound_effect_3_track, (flag / 4) % 2 == 1, offset) {
            Ok(m) => m,
            Err(e) => {
                proof {
                    lemma_mix_frames_error(
                        start,
                        flags,
                        e1,
                        e2,
                        e3,
                        doubled as int,
                        i as int + 1,
                        flag_count as int,
                    );
                }
                return Err(e);
            },
        };
        i = i + 1;
    }
    Ok(Some(master))
}

/// A failure while mixing stays to the end.
pub proof fn lemma_mix_frames_error(
    master: Result<WavView, PpmError>,
    flags: Seq<u8>,
    effect_1: Option<WavView>,
    effect_2: Option<WavView>,
    effect_3: Option<WavView>,
    doubled: int,
    failed: int,
    upto: int,
)
    requires
        failed <= upto,
        spec_mix_frames(master, flags, effect_1, effect_2, effect_3, doubled, failed) is Err,
    ensures
        spec_mix_frames(master, flags, effect_1, effect_2, effect_3, doubled, upto)
            == spec_mix_frames(master, flags, effect_1, effect_2, effect_3, doubled, failed),
    decreases upto - failed,
{
    if failed < upto {
        lemma_mix_frames_error(
            master,
            flags,
            effect_1,
            effect_2,
            effect_3,
            doubled,
            failed,
            upto - 1,
        );
    }
}

/// A track as `read_audio_data` gives it: the background track is decoded at the rate that
/// the two playback speeds give, and needs both to be valid; an effect is decoded at the
/// device's rate.
pub open spec fn spec_read_audio_data(
    bytes: Seq<u8>,
    pos: int,
    size: u32,
    header: AudioHeaderView,
    is_bgm: bool,
) -> Result<Option<WavView>, PpmError> {
    if size == 0 {
        Ok(None)
    } else if size < ADPCM_STATE_HEADER_SIZE || pos + size > bytes.len() {
        Err(PpmError::Format)
    } else if is_bgm {
        if header.frame_playback_speed <= 8 && header.frame_playback_speed_when_recording <= 8 {
            spec_read_track(
                bytes,
                pos,
                size,
                spec_bgm_rate(
                    header.frame_playback_speed,
                    header.frame_playback_speed_when_recording,
                ) as i32,
            )
        } else {
            Err(PpmError::Format)
        }
    } else {
        spec_read_track(bytes, pos, size, PPM_AUDIO_SAMPLE_RATE)
    }
}

/// The audio section stored at `pos`, with the position behind it: the header, then the
/// background track and the three effects in this order, each as long as the header says,
/// then their mix. The first failure on the way is the result.
#[verifier::opaque]
pub open spec fn spec_read_audio(
    bytes: Seq<u8>,
    pos: int,
    frame_count: int,
    sound_header_start: int,
) -> Result<(AudioView, int), PpmError> {
    match spec_read_header(bytes, pos, frame_count, sound_header_start) {
        None => Err(PpmError::Format),
        Some((header, at_background)) => {
            let at_effect_1 = at_background + header.bgm_track_size;
            let at_effect_2 = at_effect_1 + header.se1_track_size;
            let at_effect_3 = at_effect_2 + header.se2_track_size;
            let behind = at_effect_3 + header.se3_track_size;
            match spec_read_audio_data(bytes, at_background, header.bgm_track_size, header, true) {
                Err(e) => Err(e),
                Ok(background) => match spec_read_audio_data(
                    bytes,
                    at_effect_1,
                    header.se1_track_size,
                    header,
                    false,
                ) {
                    Err(e) => Err(e),
                    Ok(effect_1) => match spec_read_audio_data(
                        bytes,
                        at_effect_2,
                        header.se2_track_size,
                        header,
                        false,
                    ) {
                        Err(e) => Err(e),
                        Ok(effect_2) => match spec_read_audio_data(
                            bytes,
                            at_effect_3,
                            header.se3_track_size,
                            header,
                            false,
                        ) {
                            Err(e) => Err(e),
                            Ok(effect_3) => match spec_mix_audio(
                                header,
                                background,
                                effect_1,
                                effect_2,
                                effect_3,
                            ) {
                                Err(e) => Err(e),
                                Ok(mixed) => Ok(
                                    (
                                        AudioView {
                                            header,
                                            background,
                                            effect_1,
                                            effect_2,
                                            effect_3,
                                            mixed: Some(mixed),
                                        },
                                        behind,
                                    ),
                                ),
                            },
                        },
                    },
                },
            }
        },
    }
}

/// Reads the header of the audio section.
#[verifier::rlimit(50)]
fn read_header(cursor: &mut ByteCursor, frame_count: u32, sound_header_start: u64) -> (r: Result<
    PPMAudioHeader,
    PpmError,
>)
    ensures
        final(cursor).data@ == old(cursor).data@,
        match spec_read_header(
            old(cursor).data@,
            old(cursor).pos as int,
            frame_count as int,
            sound_header_start as int,
        ) {
            Some((header, next)) => r is Ok && r->Ok_0@ == header && final(cursor).pos == next,
            None => r == Err::<PPMAudioHeader, PpmError>(PpmError::Format),
        },
{
    let padding = header_padding(sound_header_start);
    let needed: u64 = frame_count as u64 + padding as u64 + SOUND_HEADER_SIZE as u64;
    if (cursor.available() as u64) < needed {
        return Err(PpmError::Format);
    }
    let ghost bytes = cursor.data@;
    let ghost pos = cursor.pos as int;
    let ghost at = pos + frame_count + padding;
    let flags = match cursor.read_bytes(frame_count as usize) {
        Ok(f) => f,
        Err(e) => {
            return Err(PpmError::Format);
        },
    };
    match cursor.skip(padding) {
        Ok(()) => {},
        Err(e) => {
            return Err(PpmError::Format);
        },
    }
    let bgm_track_size = match cursor.read_u32_le() {
        Ok(v) => v,
        Err(e) => {
            return Err(PpmError::Format);
        },
    };
    let se1_track_size = match cursor.read_u32_le() {
        Ok(v) => v,
        Err(e) => {
            return Err(PpmError::Format);
        },
    };
    let se2_track_size = match cursor.read_u32_le() {
        Ok(v) => v,
        Err(e) => {
            return Err(PpmError::Format);
        },
    };
    let se3_track_size = match cursor.read_u32_le() {
        Ok(v) => v,
        Err(e) => {
            return Err(PpmError::Format);
        },
    };
    let frame_playback_speed = match cursor.read_u8() {
        Ok(v) => v,
        Err(e) => {
            return Err(PpmError::Format);
        },
    };
    let frame_playback_speed_when_recording = match cursor.read_u8() {
        Ok(v) => v,
        Err(e) => {
            return Err(PpmError::Format);
        },
    };
    match cursor.skip(14) {
        Ok(()) => {},
        Err(e) => {
            return Err(PpmError::Format);
        },
    }
    Ok(
        PPMAudioHeader {
            sound_effect_flags: flags,
            bgm_track_size,
            se1_track_size,
            se2_track_size,
            se3_track_size,
            frame_playback_speed,
            frame_playback_speed_when_recording,
        },
    )
}

/// Reads one stored track of `size` bytes at the cursor: the codec state, then the codes.
/// The track is decoded and resampled for playback.
#[verifier::rlimit(50)]
pub fn read_audio_data(cursor: &mut ByteCursor, size: u32, header: &PPMAudioHeader, is_bgm: bool) -> (r:
    Result<Option<WavContainer>, PpmError>)
    ensures
        final(cursor).data@ == old(cursor).data@,
        match spec_read_audio_data(
            old(cursor).data@,
            old(cursor).pos as int,
            size,
            header@,
            is_bgm,
        ) {
            Ok(track) => r is Ok
                && track_view(r->Ok_0) == track
                && final(cursor).pos == old(cursor).pos + size,
            Err(e) => r is Err && r->Err_0 == e,
        },
{
    if size == 0 {
        return Ok(None);
    }
    if size < 4 || cursor.available() < size as usize {
        return Err(PpmError::Format);
    }
    let ghost bytes = cursor.data@;
    let ghost pos = cursor.pos as int;
    let low = match cursor.read_u16_le() {
        Ok(v) => v,
        Err(e) => {
            return Err(PpmError::Format);
        },
    };
    let predictor: i16 = if low < 32768 {
        low as i16
    } else {
        (low as i32 - 65536) as i16
    };
    let step_index = match cursor.read_u8() {
        Ok(v) => v,
        Err(e) => {
            return Err(PpmError::Format);
        },
    };
    let imported = match cursor.read_u8() {
        Ok(v) => v,
        Err(e) => {
            return Err(PpmError::Format);
        },
    };
    let adpcm_header = AudioTrackHeader { predictor, step_index, imported };
    assert(adpcm_header == spec_track_header(bytes, pos));
    let data = match cursor.read_bytes((size - 4) as usize) {
        Ok(d) => d,
        Err(e) => {
            return Err(PpmError::Format);
        },
    };
    let source_frequency = if is_bgm {
        match header.get_bgm_sample_rate() {
            Ok(rate) => rate,
            Err(e) => {
                return Err(PpmError::Format);
            },
        }
    } else {
        PPM_AUDIO_SAMPLE_RATE
    };
    let decoded = match decode_adpcm(data.as_slice(), source_frequency, adpcm_header) {
        Ok(d) => d,
        Err(e) => {
            return Err(e);
        },
    };
    match decoded.resample(PPM_AUDIO_PLAYBACK_SAMPLE_RATE) {
        Ok(container) => Ok(Some(container)),
        Err(e) => Err(e),
    }
}

/// Reads the audio section at the cursor: the header, the four tracks and their mix.
#[verifier::rlimit(50)]
pub fn inner_reader(cursor: &mut ByteCursor, frame_count: u32, sound_header_start: u64) -> (r: Result<
    PPMAudio,
    PpmError,
>)
    ensures
        final(cursor).data@ == old(cursor).data@,
        match spec_read_audio(
            old(cursor).data@,
            old(cursor).pos as int,
            frame_count as int,
            sound_header_start as int,
        ) {
            Ok((audio, next)) => r is Ok && r->Ok_0@ == audio && final(cursor).pos == next,
            Err(e) => r is Err && r->Err_0 == e,
        },
{
    reveal(spec_read_audio);
    let header = match read_header(cursor, frame_count, sound_header_start) {
        Ok(h) => h,
        Err(e) => {
            return Err(e);
        },
    };
    let background_track = match read_audio_data(cursor, header.bgm_track_size, &header, true) {
        Ok(t) => t,
        Err(e) => {
            return Err(e);
        },
    };
    let se1_track = match read_audio_data(cursor, header.se1_track_size, &header, false) {
        Ok(t) => t,
        Err(e) => {
            return Err(e);
        },
    };
    let se2_track = match read_audio_data(cursor, header.se2_track_size, &header, false) {
        Ok(t) => t,
        Err(e) => {
            return Err(e);
        },
    };
    let se3_track = match read_audio_data(cursor, header.se3_track_size, &header, false) {
        Ok(t) => t,
        Err(e) => {
            return Err(e);
        },
    };
    let mut audio = PPMAudio {
        audio_header: header,
        background_track,
        sound_effect_1_track: se1_track,
        sound_effect_2_track: se2_track,
        sound_effect_3_track: se3_track,
        mixed_tracks: None,
    };
    let mixed = match mix_audio(&audio) {
        Ok(m) => m,
        Err(e) => {
            return Err(e);
        },
    };
    audio.mixed_tracks = mixed;
    Ok(audio)
}

/// Reads the audio section that starts at `start` in `bytes`. `frame_count` is the number of
/// frames, and `sound_header_start` the position in the file by which the padding in front of
/// the sound header is found.
pub fn audio_parser(bytes: &[u8], start: usize, frame_count: u32, sound_header_start: u64) -> (r:
    Result<(PPMAudio, usize), PpmError>)
    ensures
        match spec_read_audio(
            bytes@,
            start as int,
            frame_count as int,
            sound_header_start as int,
        ) {
            Ok((audio, next)) => r is Ok && r->Ok_0.0@ == audio && r->Ok_0.1 == next,
            Err(e) => r is Err && r->Err_0 == e,
        },
{
    let mut cursor = ByteCursor::new(bytes);
    cursor.seek(start);
    match inner_reader(&mut cursor, frame_count, sound_header_start) {
        Ok(audio) => Ok((audio, cursor.position())),
        Err(e) => Err(e),
    }
}

/// Whether a track is fit for the timeline: mono, at the playback rate.
pub open spec fn track_plays(track: Option<WavView>) -> bool {
    track is Some ==> track->Some_0.channels == 1 && track->Some_0.sample_rate
        == PPM_AUDIO_PLAYBACK_SAMPLE_RATE
}

/// A track reads the same wherever it stands: what is read at `pos` is what is read at 0 of
/// the bytes of the track alone.
pub proof fn lemma_read_track_moved(bytes: Seq<u8>, pos: int, piece: Seq<u8>, source_rate: i32)
    requires
        0 <= pos,
        pos + piece.len() <= bytes.len(),
        piece.len() <= u32::MAX,
        bytes.subrange(pos, pos + piece.len()) == piece,
    ensures
        spec_read_track(bytes, pos, piece.len() as u32, source_rate) == spec_read_track(
            piece,
            0,
            piece.len() as u32,
            source_rate,
        ),
        track_plays(
            match spec_read_track(piece, 0, piece.len() as u32, source_rate) {
                Ok(track) => track,
                Err(e) => None,
            },
        ),
{
    let size = piece.len() as int;
    if size >= ADPCM_STATE_HEADER_SIZE {
        lemma_window_part(bytes, pos, piece, 4, size);
        assert(bytes[pos] == piece[0] && bytes[pos + 1] == piece[1] && bytes[pos + 2] == piece[2]
            && bytes[pos + 3] == piece[3]);
        assert(spec_track_header(bytes, pos) == spec_track_header(piece, 0));
        assert(piece.subrange(0int + 4, 0int + size) == bytes.subrange(pos + 4, pos + size));
    }
}

/// Mixing tracks that are fit for the timeline into a timeline never fails, and gives a
/// timeline.
pub proof fn lemma_mix_track_plays(
    master: Result<WavView, PpmError>,
    track: Option<WavView>,
    active: bool,
    offset: int,
)
    requires
        master is Ok,
        master->Ok_0.channels == 1,
        master->Ok_0.sample_rate == PPM_AUDIO_PLAYBACK_SAMPLE_RATE,
        track_plays(track),
    ensures
        spec_mix_track(master, track, active, offset) is Ok,
        spec_mix_track(master, track, active, offset)->Ok_0.channels == 1,
        spec_mix_track(master, track, active, offset)->Ok_0.sample_rate
            == PPM_AUDIO_PLAYBACK_SAMPLE_RATE,
{
}

/// Mixing the effects frame by frame never fails where every track is fit for the timeline.
pub proof fn lemma_mix_frames_plays(
    master: Result<WavView, PpmError>,
    flags: Seq<u8>,
    effect_1: Option<WavView>,
    effect_2: Option<WavView>,
    effect_3: Option<WavView>,
    doubled: int,
    upto: int,
)
    requires
        master is Ok,
        master->Ok_0.channels == 1,
        master->Ok_0.sample_rate == PPM_AUDIO_PLAYBACK_SAMPLE_RATE,
        track_plays(effect_1),
        track_plays(effect_2),
        track_plays(effect_3),
    ensures
        spec_mix_frames(master, flags, effect_1, effect_2, effect_3, doubled, upto) is Ok,
        spec_mix_frames(master, flags, effect_1, effect_2, effect_3, doubled, upto)->Ok_0.channels
            == 1,
        spec_mix_frames(
            master,
            flags,
            effect_1,
            effect_2,
            effect_3,
            doubled,
            upto,
        )->Ok_0.sample_rate == PPM_AUDIO_PLAYBACK_SAMPLE_RATE,
    decreases upto,
{
    if upto > 0 {
        lemma_mix_frames_plays(master, flags, effect_1, effect_2, effect_3, doubled, upto - 1);
        let before = spec_mix_frames(master, flags, effect_1, effect_2, effect_3, doubled, upto - 1);
        let flag = flags[upto - 1];
        let offset = spec_frame_offset(upto - 1, doubled);
        let after_1 = spec_mix_track(before, effect_1, flag % 2 == 1, offset);
        lemma_mix_track_plays(before, effect_1, flag % 2 == 1, offset);
        let after_2 = spec_mix_track(after_1, effect_2, (flag / 2) % 2 == 1, offset);
        lemma_mix_track_plays(after_1, effect_2, (flag / 2) % 2 == 1, offset);
        lemma_mix_track_plays(after_2, effect_3, (flag / 4) % 2 == 1, offset);
    }
}

/// Whether the timeline of a header can be made: the playback speed selects a frame rate and
/// the timeline fits in memory.
pub open spec fn timeline_possible(header: AudioHeaderView) -> bool {
    &&& header.frame_playback_speed <= 8
    &&& spec_master_len(
        if header.sound_effect_flags.len() > 0 {
            header.sound_effect_flags.len() - 1
        } else {
            0
        },
        spec_framerate_doubled(header.frame_playback_speed),
    ) <= usize::MAX
}

/// The timeline is mixed exactly where it can be made, given tracks that are fit for it.
pub proof fn lemma_mix_audio_plays(
    header: AudioHeaderView,
    background: Option<WavView>,
    effect_1: Option<WavView>,
    effect_2: Option<WavView>,
    effect_3: Option<WavView>,
)
    requires
        track_plays(background),
        track_plays(effect_1),
        track_plays(effect_2),
        track_plays(effect_3),
    ensures
        spec_mix_audio(header, background, effect_1, effect_2, effect_3) is Ok
            == timeline_possible(header),
{
    if timeline_possible(header) {
        let doubled = spec_framerate_doubled(header.frame_playback_speed);
        let frame_count = if header.sound_effect_flags.len() > 0 {
            header.sound_effect_flags.len() - 1
        } else {
            0
        };
        let len = spec_master_len(frame_count, doubled);
        let silence = Ok::<WavView, PpmError>(spec_silence(len));
        lemma_mix_track_plays(silence, background, true, 0);
        lemma_mix_frames_plays(
            spec_mix_track(silence, background, true, 0),
            header.sound_effect_flags,
            effect_1,
            effect_2,
            effect_3,
            doubled,
            header.sound_effect_flags.len() as int,
        );
    }
}

/// What holds of an audio section that was read: it has one flag for each frame, its
/// timeline could be made, and its tracks are fit for the timeline.
pub proof fn lemma_read_audio_facts(
    bytes: Seq<u8>,
    pos: int,
    frame_count: int,
    sound_header_start: int,
)
    requires
        0 <= pos,
        0 <= frame_count,
        spec_read_audio(bytes, pos, frame_count, sound_header_start) is Ok,
    ensures
        ({
            let audio = spec_read_audio(bytes, pos, frame_count, sound_header_start)->Ok_0.0;
            &&& audio.header.sound_effect_flags.len() == frame_count
            &&& timeline_possible(audio.header)
            &&& track_plays(audio.background)
            &&& track_plays(audio.effect_1)
            &&& track_plays(audio.effect_2)
            &&& track_plays(audio.effect_3)
        }),
{
    reveal(spec_read_audio);
}

/// The reader of the audio section never goes backwards: it stops at or behind the place
/// where it started.
pub proof fn lemma_read_audio_position(
    bytes: Seq<u8>,
    pos: int,
    frame_count: int,
    sound_header_start: int,
)
    requires
        0 <= pos,
        0 <= frame_count,
        spec_read_audio(bytes, pos, frame_count, sound_header_start) is Ok,
    ensures
        spec_read_audio(bytes, pos, frame_count, sound_header_start)->Ok_0.1 >= pos,
{
    reveal(spec_read_audio);
}

} // verus!

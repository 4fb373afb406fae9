//! Writing of the audio section: the tracks are brought back to their stored rates and
//! encoded, and the header gets their new sizes.

use vstd::prelude::*;
use crate::error::PpmError;
use crate::ppm::audio::adpcm_ima::{encode_adpcm, spec_ima_encode};
use crate::ppm::audio::audio::{AudioView, PPMAudio, track_view};
use crate::ppm::audio::audio_header::{
    AudioHeaderView, lemma_framerate_range, spec_bgm_rate, spec_framerate_doubled,
};
use crate::ppm::audio::wav_container::{WavContainer, WavView, spec_wav_resample};
use crate::ppm::constants::{
    ADPCM_STATE_HEADER_SIZE, PPM_AUDIO_PLAYBACK_SAMPLE_RATE, PPM_AUDIO_SAMPLE_RATE,
};
use crate::ppm::parsers::audio_parser::{
    header_padding, lemma_mix_audio_plays, lemma_read_track_moved, spec_header_padding,
    spec_read_audio, spec_read_audio_data, spec_read_header, spec_read_track, timeline_possible,
    track_plays, SOUND_HEADER_SIZE,
};
use crate::utils::cursor::{
    lemma_concat_segment, lemma_u32_le_roundtrip, lemma_window_part, push_bytes, push_u32_le,
    push_zeros, spec_u32_le_bytes,
};

verus! {

/// The bytes that store a track: the codec state zero in four bytes, then the codes of the
/// track resampled to `rate`. Nothing is stored where there is no track or it holds no
/// sample. `Format` where the track is too long for its size to be stored.
pub open spec fn spec_encode_track(track: Option<WavView>, rate: i32) -> Result<Seq<u8>, PpmError> {
    match track {
        None => Ok(Seq::empty()),
        Some(t) => match spec_wav_resample(t, rate) {
            Err(e) => Err(e),
            Ok(stored) => {
                let data = spec_ima_encode(stored.samples);
                if data.len() == 0 {
                    Ok(Seq::empty())
                } else if data.len() + ADPCM_STATE_HEADER_SIZE > u32::MAX {
                    Err(PpmError::Format)
                } else {
                    Ok(Seq::new(ADPCM_STATE_HEADER_SIZE as nat, |i: int| 0u8) + data)
                }
            },
        },
    }
}

/// The bytes that store the background track, which is resampled to the rate that the two
/// playback speeds give: `Format` where there is a track and a speed is not valid.
pub open spec fn spec_encode_background(header: AudioHeaderView, track: Option<WavView>) -> Result<
    Seq<u8>,
    PpmError,
> {
    if track is None {
        Ok(Seq::empty())
    } else if header.frame_playback_speed <= 8 && header.frame_playback_speed_when_recording
        <= 8 {
        spec_encode_track(
            track,
            spec_bgm_rate(
                header.frame_playback_speed,
                header.frame_playback_speed_when_recording,
            ) as i32,
        )
    } else {
        Err(PpmError::Format)
    }
}

/// The header of the audio section with the sizes of the tracks as they are stored.
pub open spec fn spec_header_bytes(
    header: AudioHeaderView,
    sound_header_start: int,
    bgm: int,
    se1: int,
    se2: int,
    se3: int,
) -> Seq<u8> {
    header.sound_effect_flags + Seq::new(
        spec_header_padding(sound_header_start) as nat,
        |i: int| 0u8,
    ) + spec_u32_le_bytes(bgm) + spec_u32_le_bytes(se1) + spec_u32_le_bytes(se2)
        + spec_u32_le_bytes(se3) + seq![
        header.frame_playback_speed,
        header.frame_playback_speed_when_recording,
    ] + Seq::new(14, |i: int| 0u8)
}

/// The bytes that store the four tracks: the background track, then the three effects at
/// the device's rate. The first failure is the result.
pub open spec fn spec_encode_tracks(audio: AudioView) -> Result<
    (Seq<u8>, Seq<u8>, Seq<u8>, Seq<u8>),
    PpmError,
> {
    match spec_encode_background(audio.header, audio.background) {
        Err(e) => Err(e),
        Ok(bgm) => match spec_encode_track(audio.effect_1, PPM_AUDIO_SAMPLE_RATE) {
            Err(e) => Err(e),
            Ok(se1) => match spec_encode_track(audio.effect_2, PPM_AUDIO_SAMPLE_RATE) {
                Err(e) => Err(e),
                Ok(se2) => match spec_encode_track(audio.effect_3, PPM_AUDIO_SAMPLE_RATE) {
                    Err(e) => Err(e),
                    Ok(se3) => Ok((bgm, se1, se2, se3)),
                },
            },
        },
    }
}

/// The bytes of the audio section and the size of the sound data, which is the sum of the
/// sizes of the stored tracks. `Format` where the flags are not one for each of
/// `frame_count` frames or the sound data is too long for its size to be stored.
#[verifier::opaque]
pub open spec fn spec_write_audio(audio: AudioView, frame_count: int, sound_header_start: int) -> Result<
    (Seq<u8>, u32),
    PpmError,
> {
    if audio.header.sound_effect_flags.len() != frame_count {
        Err(PpmError::Format)
    } else {
        match spec_encode_tracks(audio) {
            Err(e) => Err(e),
            Ok((bgm, se1, se2, se3)) => if bgm.len() + se1.len() + se2.len() + se3.len()
                > u32::MAX {
                Err(PpmError::Format)
            } else {
                Ok(
                    (
                        spec_header_bytes(
                            audio.header,
                            sound_header_start,
                            bgm.len() as int,
                            se1.len() as int,
                            se2.len() as int,
                            se3.len() as int,
                        ) + bgm + se1 + se2 + se3,
                        (bgm.len() + se1.len() + se2.len() + se3.len()) as u32,
                    ),
                )
            },
        }
    }
}

/// The bytes that store one track at `rate` samples per second.
#[verifier::rlimit(50)]
fn encode_track(track: &Option<WavContainer>, rate: i32) -> (r: Result<Vec<u8>, PpmError>)
    ensures
        match spec_encode_track(track_view(*track), rate) {
            Ok(bytes) => r is Ok && r->Ok_0@ == bytes && bytes.len() <= u32::MAX,
            Err(e) => r is Err && r->Err_0 == e,
        },
{
    match track {
        None => Ok(Vec::new()),
        Some(t) => {
            let stored = match t.resample(rate) {
                Ok(s) => s,
                Err(e) => {
                    return Err(e);
                },
            };
            let samples = stored.get_samples();
            let (header, data) = match encode_adpcm(samples.as_slice()) {
                Ok(pair) => pair,
                Err(e) => {
                    return Err(e);
                },
            };
            if data.len() == 0 {
                return Ok(Vec::new());
            }
            if data.len() > 0xFFFF_FFFFusize - ADPCM_STATE_HEADER_SIZE {
                return Err(PpmError::Format);
            }
            let mut bytes: Vec<u8> = Vec::new();
            push_zeros(&mut bytes, ADPCM_STATE_HEADER_SIZE);
            push_bytes(&mut bytes, data.as_slice());
            assert(bytes@ =~= Seq::new(ADPCM_STATE_HEADER_SIZE as nat, |i: int| 0u8) + data@);
            Ok(bytes)
        },
    }
}

/// The bytes that store the four tracks.
#[verifier::rlimit(50)]
fn encode_tracks(audio: &PPMAudio) -> (r: Result<(Vec<u8>, Vec<u8>, Vec<u8>, Vec<u8>), PpmError>)
    ensures
        match spec_encode_tracks(audio@) {
            Ok((bgm, se1, se2, se3)) => r is Ok && r->Ok_0.0@ == bgm && r->Ok_0.1@ == se1
                && r->Ok_0.2@ == se2 && r->Ok_0.3@ == se3 && bgm.len() <= u32::MAX && se1.len()
                <= u32::MAX && se2.len() <= u32::MAX && se3.len() <= u32::MAX,
            Err(e) => r is Err && r->Err_0 == e,
        },
{
    let header = &audio.audio_header;
    let bgm = match &audio.background_track {
        None => Vec::new(),
        Some(t) => {
            let rate = match header.get_bgm_sample_rate() {
                Ok(rate) => rate,
                Err(e) => {
                    return Err(PpmError::Format);
                },
            };
            match encode_track(&audio.background_track, rate) {
                Ok(b) => b,
                Err(e) => {
                    return Err(e);
                },
            }
        },
    };
    let se1 = match encode_track(&audio.sound_effect_1_track, PPM_AUDIO_SAMPLE_RATE) {
        Ok(b) => b,
        Err(e) => {
            return Err(e);
        },
    };
    let se2 = match encode_track(&audio.sound_effect_2_track, PPM_AUDIO_SAMPLE_RATE) {
        Ok(b) => b,
        Err(e) => {
            return Err(e);
        },
    };
    let se3 = match encode_track(&audio.sound_effect_3_track, PPM_AUDIO_SAMPLE_RATE) {
        Ok(b) => b,
        Err(e) => {
            return Err(e);
        },
    };
    Ok((bgm, se1, se2, se3))
}

/// Appends the header of the audio section with the given track sizes.
#[verifier::rlimit(50)]
fn write_header(
    out: &mut Vec<u8>,
    audio: &PPMAudio,
    sound_header_start: u64,
    bgm: u32,
    se1: u32,
    se2: u32,
    se3: u32,
)
    ensures
        final(out)@ == old(out)@ + spec_header_bytes(
            audio@.header,
            sound_header_start as int,
            bgm as int,
            se1 as int,
            se2 as int,
            se3 as int,
        ),
{
    let header = &audio.audio_header;
    push_bytes(out, header.sound_effect_flags.as_slice());
    push_zeros(out, header_padding(sound_header_start));
    push_u32_le(out, bgm);
    push_u32_le(out, se1);
    push_u32_le(out, se2);
    push_u32_le(out, se3);
    out.push(header.frame_playback_speed);
    out.push(header.frame_playback_speed_when_recording);
    push_zeros(out, 14);
    proof {
        assert(out@ =~= old(out)@ + spec_header_bytes(
            audio@.header,
            sound_header_start as int,
            bgm as int,
            se1 as int,
            se2 as int,
            se3 as int,
        ));
    }
}

/// Appends the audio section to `out` and gives the size of the sound data for the file
/// header. On a failure nothing is appended.
#[verifier::rlimit(50)]
pub fn inner_writer(
    out: &mut Vec<u8>,
    audio: &PPMAudio,
    frame_count: u32,
    sound_header_start: u64,
) -> (r: Result<u32, PpmError>)
    ensures
        match spec_write_audio(audio@, frame_count as int, sound_header_start as int) {
            Ok((bytes, size)) => r == Ok::<u32, PpmError>(size) && final(out)@ == old(out)@
                + bytes,
            Err(e) => r == Err::<u32, PpmError>(e) && final(out)@ == old(out)@,
        },
{
    reveal(spec_write_audio);
    if audio.audio_header.sound_effect_flags.len() != frame_count as usize {
        return Err(PpmError::Format);
    }
    let (bgm, se1, se2, se3) = match encode_tracks(audio) {
        Ok(tracks) => tracks,
        Err(e) => {
            return Err(e);
        },
    };
    let total: u64 = bgm.len() as u64 + se1.len() as u64 + se2.len() as u64 + se3.len() as u64;
    if total > 0xFFFF_FFFFu64 {
        return Err(PpmError::Format);
    }
    let mut section: Vec<u8> = Vec::new();
    write_header(
        &mut section,
        audio,
        sound_header_start,
        bgm.len() as u32,
        se1.len() as u32,
        se2.len() as u32,
        se3.len() as u32,
    );
    assert(section@ =~= spec_header_bytes(
        audio@.header,
        sound_header_start as int,
        bgm@.len() as int,
        se1@.len() as int,
        se2@.len() as int,
        se3@.len() as int,
    ));
    push_bytes(&mut section, bgm.as_slice());
    push_bytes(&mut section, se1.as_slice());
    push_bytes(&mut section, se2.as_slice());
    push_bytes(&mut section, se3.as_slice());
    push_bytes(out, section.as_slice());
    Ok(total as u32)
}

/// The bytes of the audio section and the size of the sound data for the file header.
pub fn audio_writer(audio: &PPMAudio, frame_count: u32, sound_header_start: u64) -> (r: Result<
    (Vec<u8>, u32),
    PpmError,
>)
    ensures
        match spec_write_audio(audio@, frame_count as int, sound_header_start as int) {
            Ok((bytes, size)) => r is Ok && r->Ok_0.0@ == bytes && r->Ok_0.1 == size,
            Err(e) => r is Err && r->Err_0 == e,
        },
{
    let mut out: Vec<u8> = Vec::new();
    match inner_writer(&mut out, audio, frame_count, sound_header_start) {
        Ok(size) => Ok((out, size)),
        Err(e) => Err(e),
    }
}

/// The parts of the header of the audio section lie one behind the other: the flags, the
/// padding, the four sizes, the two speeds and 14 zero bytes.
#[verifier::rlimit(50)]
proof fn lemma_header_bytes_layout(
    header: AudioHeaderView,
    sound_header_start: int,
    bgm: int,
    se1: int,
    se2: int,
    se3: int,
)
    ensures
        ({
            let stored = spec_header_bytes(header, sound_header_start, bgm, se1, se2, se3);
            let at = header.sound_effect_flags.len() + spec_header_padding(sound_header_start);
            &&& 0 <= spec_header_padding(sound_header_start) < 4
            &&& stored.len() == at + SOUND_HEADER_SIZE
            &&& stored.subrange(0, header.sound_effect_flags.len() as int)
                == header.sound_effect_flags
            &&& stored.subrange(at, at + 4) == spec_u32_le_bytes(bgm)
            &&& stored.subrange(at + 4, at + 8) == spec_u32_le_bytes(se1)
            &&& stored.subrange(at + 8, at + 12) == spec_u32_le_bytes(se2)
            &&& stored.subrange(at + 12, at + 16) == spec_u32_le_bytes(se3)
            &&& stored[at + 16] == header.frame_playback_speed
            &&& stored[at + 17] == header.frame_playback_speed_when_recording
        }),
{
    let flags = header.sound_effect_flags;
    let zeros = Seq::new(spec_header_padding(sound_header_start) as nat, |i: int| 0u8);
    let speeds = seq![header.frame_playback_speed, header.frame_playback_speed_when_recording];
    let reserved = Seq::new(14, |i: int| 0u8);
    let stored = spec_header_bytes(header, sound_header_start, bgm, se1, se2, se3);
    let front = flags + zeros;
    let at = front.len() as int;
    let sizes_1 = front + spec_u32_le_bytes(bgm);
    let sizes_2 = sizes_1 + spec_u32_le_bytes(se1);
    let sizes_3 = sizes_2 + spec_u32_le_bytes(se2);
    let sizes_4 = sizes_3 + spec_u32_le_bytes(se3);
    assert(stored == sizes_4 + speeds + reserved);
    assert(stored.subrange(0, flags.len() as int) =~= flags);
    assert(stored =~= front + spec_u32_le_bytes(bgm) + (spec_u32_le_bytes(se1) + spec_u32_le_bytes(
        se2,
    ) + spec_u32_le_bytes(se3) + speeds + reserved));
    lemma_concat_segment(
        front,
        spec_u32_le_bytes(bgm),
        spec_u32_le_bytes(se1) + spec_u32_le_bytes(se2) + spec_u32_le_bytes(se3) + speeds
            + reserved,
    );
    assert(stored =~= sizes_1 + spec_u32_le_bytes(se1) + (spec_u32_le_bytes(se2)
        + spec_u32_le_bytes(se3) + speeds + reserved));
    lemma_concat_segment(
        sizes_1,
        spec_u32_le_bytes(se1),
        spec_u32_le_bytes(se2) + spec_u32_le_bytes(se3) + speeds + reserved,
    );
    assert(stored =~= sizes_2 + spec_u32_le_bytes(se2) + (spec_u32_le_bytes(se3) + speeds
        + reserved));
    lemma_concat_segment(sizes_2, spec_u32_le_bytes(se2), spec_u32_le_bytes(se3) + speeds + reserved);
    assert(stored =~= sizes_3 + spec_u32_le_bytes(se3) + (speeds + reserved));
    lemma_concat_segment(sizes_3, spec_u32_le_bytes(se3), speeds + reserved);
    lemma_concat_segment(sizes_4, speeds, reserved);
    assert(stored.subrange(at + 16, at + 18) == speeds);
    assert(stored.subrange(at + 16, at + 18)[0] == stored[at + 16]);
    assert(stored.subrange(at + 16, at + 18)[1] == stored[at + 17]);
}

/// Reading the header of the audio section back gives the flags and the speeds that were
/// stored, with the sizes that were stored.
#[verifier::rlimit(50)]
pub proof fn lemma_header_reads_back(
    header: AudioHeaderView,
    sound_header_start: int,
    bgm: u32,
    se1: u32,
    se2: u32,
    se3: u32,
    bytes: Seq<u8>,
    pos: int,
)
    requires
        0 <= pos,
        pos + spec_header_bytes(
            header,
            sound_header_start,
            bgm as int,
            se1 as int,
            se2 as int,
            se3 as int,
        ).len() <= bytes.len(),
        bytes.subrange(
            pos,
            pos + spec_header_bytes(
                header,
                sound_header_start,
                bgm as int,
                se1 as int,
                se2 as int,
                se3 as int,
            ).len(),
        ) == spec_header_bytes(
            header,
            sound_header_start,
            bgm as int,
            se1 as int,
            se2 as int,
            se3 as int,
        ),
    ensures
        spec_read_header(
            bytes,
            pos,
            header.sound_effect_flags.len() as int,
            sound_header_start,
        ) == Some(
            (
                AudioHeaderView {
                    sound_effect_flags: header.sound_effect_flags,
                    bgm_track_size: bgm,
                    se1_track_size: se1,
                    se2_track_size: se2,
                    se3_track_size: se3,
                    frame_playback_speed: header.frame_playback_speed,
                    frame_playback_speed_when_recording: header.frame_playback_speed_when_recording,
                },
                pos + spec_header_bytes(
                    header,
                    sound_header_start,
                    bgm as int,
                    se1 as int,
                    se2 as int,
                    se3 as int,
                ).len() as int,
            ),
        ),
{
    let stored = spec_header_bytes(
        header,
        sound_header_start,
        bgm as int,
        se1 as int,
        se2 as int,
        se3 as int,
    );
    let count = header.sound_effect_flags.len() as int;
    let at = count + spec_header_padding(sound_header_start);
    lemma_header_bytes_layout(
        header,
        sound_header_start,
        bgm as int,
        se1 as int,
        se2 as int,
        se3 as int,
    );
    lemma_window_part(bytes, pos, stored, 0, count);
    lemma_window_part(bytes, pos, stored, at, at + 4);
    lemma_window_part(bytes, pos, stored, at + 4, at + 8);
    lemma_window_part(bytes, pos, stored, at + 8, at + 12);
    lemma_window_part(bytes, pos, stored, at + 12, at + 16);
    lemma_u32_le_roundtrip(bgm as int, bytes, pos + at);
    lemma_u32_le_roundtrip(se1 as int, bytes, pos + at + 4);
    lemma_u32_le_roundtrip(se2 as int, bytes, pos + at + 8);
    lemma_u32_le_roundtrip(se3 as int, bytes, pos + at + 12);
    assert(bytes[pos + at + 16] == stored[at + 16]);
    assert(bytes[pos + at + 17] == stored[at + 17]);
    assert(bytes.subrange(pos, pos + count) == header.sound_effect_flags);
}

/// Whether a stored track, taken alone, can be read: it is absent, or it decodes to samples
/// that fit in memory at the playback rate.
pub open spec fn stored_track_reads(piece: Seq<u8>, source_rate: i32) -> bool {
    spec_read_track(piece, 0, piece.len() as u32, source_rate) is Ok
}

/// The shape of a stored track: nothing, or the codec state and at least one code byte, with
/// a size that fits in 32 bits.
pub open spec fn stored_track_shape(piece: Seq<u8>) -> bool {
    piece.len() == 0 || ADPCM_STATE_HEADER_SIZE < piece.len() <= u32::MAX
}

/// Whether the tracks of an audio section can be read again as they are written.
pub open spec fn rewritten_tracks_read(audio: AudioView) -> bool {
    match spec_encode_tracks(audio) {
        Ok((bgm, se1, se2, se3)) => {
            &&& stored_track_reads(
                bgm,
                spec_bgm_rate(
                    audio.header.frame_playback_speed,
                    audio.header.frame_playback_speed_when_recording,
                ) as i32,
            )
            &&& stored_track_reads(se1, PPM_AUDIO_SAMPLE_RATE)
            &&& stored_track_reads(se2, PPM_AUDIO_SAMPLE_RATE)
            &&& stored_track_reads(se3, PPM_AUDIO_SAMPLE_RATE)
        },
        Err(e) => true,
    }
}

/// A track is stored as nothing, or as the codec state and at least one code byte, and its
/// size fits in 32 bits.
pub proof fn lemma_encoded_track_shape(track: Option<WavView>, rate: i32)
    requires
        spec_encode_track(track, rate) is Ok,
    ensures
        stored_track_shape(spec_encode_track(track, rate)->Ok_0),
{
}

/// Whether the track of `size` bytes at `pos` is read and is fit for the timeline.
#[verifier::opaque]
pub open spec fn track_is_read(
    bytes: Seq<u8>,
    pos: int,
    size: u32,
    header: AudioHeaderView,
    is_bgm: bool,
) -> bool {
    spec_read_audio_data(bytes, pos, size, header, is_bgm) is Ok && track_plays(
        spec_read_audio_data(bytes, pos, size, header, is_bgm)->Ok_0,
    )
}

/// Whether the track of `size` bytes at `pos` is refused because its samples do not fit in
/// memory at the playback rate.
#[verifier::opaque]
pub open spec fn track_does_not_fit(
    bytes: Seq<u8>,
    pos: int,
    size: u32,
    header: AudioHeaderView,
    is_bgm: bool,
) -> bool {
    spec_read_audio_data(bytes, pos, size, header, is_bgm) == Err::<Option<WavView>, PpmError>(
        PpmError::Codec,
    )
}

/// Five pieces stored one behind the other, behind a front and before a rest, are found at
/// their places.
proof fn lemma_five_pieces(
    front: Seq<u8>,
    first: Seq<u8>,
    second: Seq<u8>,
    third: Seq<u8>,
    fourth: Seq<u8>,
    fifth: Seq<u8>,
    rest: Seq<u8>,
)
    ensures
        ({
            let bytes = front + (first + second + third + fourth + fifth) + rest;
            let at_1 = front.len() as int;
            let at_2 = at_1 + first.len();
            let at_3 = at_2 + second.len();
            let at_4 = at_3 + third.len();
            let at_5 = at_4 + fourth.len();
            &&& bytes.len() == at_5 + fifth.len() + rest.len()
            &&& bytes.subrange(at_1, at_2) == first
            &&& bytes.subrange(at_2, at_3) == second
            &&& bytes.subrange(at_3, at_4) == third
            &&& bytes.subrange(at_4, at_5) == fourth
            &&& bytes.subrange(at_5, at_5 + fifth.len()) == fifth
        }),
{
    let bytes = front + (first + second + third + fourth + fifth) + rest;
    assert(bytes =~= front + first + second + third + fourth + (fifth + rest));
    lemma_four_pieces(front, first, second, third, fourth, fifth + rest);
    assert(bytes =~= (front + first + second + third + fourth) + fifth + rest);
    lemma_concat_segment(front + first + second + third + fourth, fifth, rest);
}

/// Four pieces stored one behind the other, behind a front and before a rest, are found at
/// their places.
#[verifier::rlimit(50)]
proof fn lemma_four_pieces(
    front: Seq<u8>,
    first: Seq<u8>,
    second: Seq<u8>,
    third: Seq<u8>,
    fourth: Seq<u8>,
    rest: Seq<u8>,
)
    ensures
        ({
            let bytes = front + first + second + third + fourth + rest;
            let at_1 = front.len() as int;
            let at_2 = at_1 + first.len();
            let at_3 = at_2 + second.len();
            let at_4 = at_3 + third.len();
            &&& bytes.len() == at_4 + fourth.len() + rest.len()
            &&& bytes.subrange(0, at_1) == front
            &&& bytes.subrange(at_1, at_2) == first
            &&& bytes.subrange(at_2, at_3) == second
            &&& bytes.subrange(at_3, at_4) == third
            &&& bytes.subrange(at_4, at_4 + fourth.len()) == fourth
        }),
{
    let bytes = front + first + second + third + fourth + rest;
    assert(bytes.subrange(0, front.len() as int) =~= front);
    assert(bytes =~= front + first + (second + third + fourth + rest));
    lemma_concat_segment(front, first, second + third + fourth + rest);
    assert(bytes =~= (front + first) + second + (third + fourth + rest));
    lemma_concat_segment(front + first, second, third + fourth + rest);
    assert(bytes =~= (front + first + second) + third + (fourth + rest));
    lemma_concat_segment(front + first + second, third, fourth + rest);
    lemma_concat_segment(front + first + second + third, fourth, rest);
}

/// The samples per second at which a stored track is decoded.
pub open spec fn spec_stored_rate(header: AudioHeaderView, is_bgm: bool) -> i32 {
    if is_bgm {
        spec_bgm_rate(header.frame_playback_speed, header.frame_playback_speed_when_recording) as i32
    } else {
        PPM_AUDIO_SAMPLE_RATE
    }
}

/// A stored track is read at its place in the audio section exactly where it can be read
/// alone, and what is read is then fit for the timeline. Where it cannot, the failure is
/// `Codec`: its samples do not fit in memory.
proof fn lemma_stored_track_read(
    bytes: Seq<u8>,
    pos: int,
    piece: Seq<u8>,
    header: AudioHeaderView,
    is_bgm: bool,
)
    requires
        0 <= pos,
        pos + piece.len() <= bytes.len(),
        bytes.subrange(pos, pos + piece.len()) == piece,
        stored_track_shape(piece),
        is_bgm && piece.len() > 0 ==> header.frame_playback_speed <= 8
            && header.frame_playback_speed_when_recording <= 8,
    ensures
        stored_track_reads(piece, spec_stored_rate(header, is_bgm)) ==> track_is_read(
            bytes,
            pos,
            piece.len() as u32,
            header,
            is_bgm,
        ),
        !stored_track_reads(piece, spec_stored_rate(header, is_bgm)) ==> track_does_not_fit(
            bytes,
            pos,
            piece.len() as u32,
            header,
            is_bgm,
        ),
{
    reveal(track_is_read);
    reveal(track_does_not_fit);
    lemma_read_track_moved(bytes, pos, piece, spec_stored_rate(header, is_bgm));
}

/// An audio section is refused with `Codec` where its header is read, each of its four
/// tracks is read or does not fit, and one of them does not fit.
#[verifier::rlimit(50)]
proof fn lemma_read_audio_fails(
    bytes: Seq<u8>,
    pos: int,
    frame_count: int,
    sound_header_start: int,
    header: AudioHeaderView,
    at_background: int,
)
    requires
        spec_read_header(bytes, pos, frame_count, sound_header_start) == Some(
            (header, at_background),
        ),
        track_is_read(bytes, at_background, header.bgm_track_size, header, true)
            || track_does_not_fit(bytes, at_background, header.bgm_track_size, header, true),
        track_is_read(
            bytes,
            at_background + header.bgm_track_size,
            header.se1_track_size,
            header,
            false,
        ) || track_does_not_fit(
            bytes,
            at_background + header.bgm_track_size,
            header.se1_track_size,
            header,
            false,
        ),
        track_is_read(
            bytes,
            at_background + header.bgm_track_size + header.se1_track_size,
            header.se2_track_size,
            header,
            false,
        ) || track_does_not_fit(
            bytes,
            at_background + header.bgm_track_size + header.se1_track_size,
            header.se2_track_size,
            header,
            false,
        ),
        track_is_read(
            bytes,
            at_background + header.bgm_track_size + header.se1_track_size + header.se2_track_size,
            header.se3_track_size,
            header,
            false,
        ) || track_does_not_fit(
            bytes,
            at_background + header.bgm_track_size + header.se1_track_size + header.se2_track_size,
            header.se3_track_size,
            header,
            false,
        ),
        !(track_is_read(bytes, at_background, header.bgm_track_size, header, true)
            && track_is_read(
            bytes,
            at_background + header.bgm_track_size,
            header.se1_track_size,
            header,
            false,
        ) && track_is_read(
            bytes,
            at_background + header.bgm_track_size + header.se1_track_size,
            header.se2_track_size,
            header,
            false,
        ) && track_is_read(
            bytes,
            at_background + header.bgm_track_size + header.se1_track_size + header.se2_track_size,
            header.se3_track_size,
            header,
            false,
        )),
    ensures
        spec_read_audio(bytes, pos, frame_count, sound_header_start) == Err::<
            (AudioView, int),
            PpmError,
        >(PpmError::Codec),
{
    reveal(spec_read_audio);
    reveal(track_is_read);
    reveal(track_does_not_fit);
}

/// An audio section is read where its header is read, each of its four tracks is read at
/// its place and is fit for the timeline, and the timeline can be made. The reader then
/// stops behind the last track.
#[verifier::rlimit(50)]
proof fn lemma_read_audio_succeeds(
    bytes: Seq<u8>,
    pos: int,
    frame_count: int,
    sound_header_start: int,
    header: AudioHeaderView,
    at_background: int,
)
    requires
        spec_read_header(bytes, pos, frame_count, sound_header_start) == Some(
            (header, at_background),
        ),
        timeline_possible(header),
        track_is_read(bytes, at_background, header.bgm_track_size, header, true),
        track_is_read(
            bytes,
            at_background + header.bgm_track_size,
            header.se1_track_size,
            header,
            false,
        ),
        track_is_read(
            bytes,
            at_background + header.bgm_track_size + header.se1_track_size,
            header.se2_track_size,
            header,
            false,
        ),
        track_is_read(
            bytes,
            at_background + header.bgm_track_size + header.se1_track_size + header.se2_track_size,
            header.se3_track_size,
            header,
            false,
        ),
    ensures
        spec_read_audio(bytes, pos, frame_count, sound_header_start) is Ok,
        spec_read_audio(bytes, pos, frame_count, sound_header_start)->Ok_0.1 == at_background
            + header.bgm_track_size + header.se1_track_size + header.se2_track_size
            + header.se3_track_size,
{
    reveal(spec_read_audio);
    reveal(track_is_read);
    let at_effect_1 = at_background + header.bgm_track_size;
    let at_effect_2 = at_effect_1 + header.se1_track_size;
    let at_effect_3 = at_effect_2 + header.se2_track_size;
    lemma_mix_audio_plays(
        header,
        spec_read_audio_data(bytes, at_background, header.bgm_track_size, header, true)->Ok_0,
        spec_read_audio_data(bytes, at_effect_1, header.se1_track_size, header, false)->Ok_0,
        spec_read_audio_data(bytes, at_effect_2, header.se2_track_size, header, false)->Ok_0,
        spec_read_audio_data(bytes, at_effect_3, header.se3_track_size, header, false)->Ok_0,
    );
}

/// What is written of an audio section: the header with the sizes of the stored tracks, then
/// the four stored tracks. There is one flag for each frame, each track is stored as
/// nothing or as the codec state and at least one code byte, and a background track that is
/// stored has valid speeds.
#[verifier::rlimit(50)]
pub proof fn lemma_written_section(audio: AudioView, frame_count: int, sound_header_start: int)
    requires
        spec_write_audio(audio, frame_count, sound_header_start) is Ok,
    ensures
        spec_encode_tracks(audio) is Ok,
        audio.header.sound_effect_flags.len() == frame_count,
        ({
            let tracks = spec_encode_tracks(audio)->Ok_0;
            &&& spec_write_audio(audio, frame_count, sound_header_start)->Ok_0.0
                == spec_header_bytes(
                audio.header,
                sound_header_start,
                tracks.0.len() as int,
                tracks.1.len() as int,
                tracks.2.len() as int,
                tracks.3.len() as int,
            ) + tracks.0 + tracks.1 + tracks.2 + tracks.3
            &&& stored_track_shape(tracks.0)
            &&& stored_track_shape(tracks.1)
            &&& stored_track_shape(tracks.2)
            &&& stored_track_shape(tracks.3)
            &&& tracks.0.len() > 0 ==> audio.header.frame_playback_speed <= 8
                && audio.header.frame_playback_speed_when_recording <= 8
        }),
{
    reveal(spec_write_audio);
    lemma_encoded_track_shape(audio.effect_1, PPM_AUDIO_SAMPLE_RATE);
    lemma_encoded_track_shape(audio.effect_2, PPM_AUDIO_SAMPLE_RATE);
    lemma_encoded_track_shape(audio.effect_3, PPM_AUDIO_SAMPLE_RATE);
    if audio.background is Some {
        lemma_encoded_track_shape(
            audio.background,
            spec_bgm_rate(
                audio.header.frame_playback_speed,
                audio.header.frame_playback_speed_when_recording,
            ) as i32,
        );
    }
}

/// Whether four stored tracks can each be read alone, the first as the background track.
pub open spec fn stored_tracks_read(
    header: AudioHeaderView,
    bgm: Seq<u8>,
    se1: Seq<u8>,
    se2: Seq<u8>,
    se3: Seq<u8>,
) -> bool {
    &&& stored_track_reads(bgm, spec_stored_rate(header, true))
    &&& stored_track_reads(se1, PPM_AUDIO_SAMPLE_RATE)
    &&& stored_track_reads(se2, PPM_AUDIO_SAMPLE_RATE)
    &&& stored_track_reads(se3, PPM_AUDIO_SAMPLE_RATE)
}

/// A header and four stored tracks, written one behind the other, are read again exactly
/// where each track can be read alone: whatever stands in front of them and behind them,
/// reading at their place then succeeds and ends right behind them. Where a track cannot be
/// read, reading fails with `Codec`.
#[verifier::rlimit(80)]
pub proof fn lemma_section_reads_back(
    header: AudioHeaderView,
    sound_header_start: int,
    bgm: Seq<u8>,
    se1: Seq<u8>,
    se2: Seq<u8>,
    se3: Seq<u8>,
    front: Seq<u8>,
    rest: Seq<u8>,
)
    requires
        timeline_possible(header),
        stored_track_shape(bgm),
        stored_track_shape(se1),
        stored_track_shape(se2),
        stored_track_shape(se3),
        bgm.len() > 0 ==> header.frame_playback_speed_when_recording <= 8,
    ensures
        ({
            let section = spec_header_bytes(
                header,
                sound_header_start,
                bgm.len() as int,
                se1.len() as int,
                se2.len() as int,
                se3.len() as int,
            ) + bgm + se1 + se2 + se3;
            let read = spec_read_audio(
                front + section + rest,
                front.len() as int,
                header.sound_effect_flags.len() as int,
                sound_header_start,
            );
            &&& stored_tracks_read(header, bgm, se1, se2, se3) ==> read is Ok && read->Ok_0.1
                == front.len() + section.len()
            &&& !stored_tracks_read(header, bgm, se1, se2, se3) ==> read == Err::<
                (AudioView, int),
                PpmError,
            >(PpmError::Codec)
        }),
{
    let stored_header = spec_header_bytes(
        header,
        sound_header_start,
        bgm.len() as int,
        se1.len() as int,
        se2.len() as int,
        se3.len() as int,
    );
    let bytes = front + (stored_header + bgm + se1 + se2 + se3) + rest;
    let pos = front.len() as int;
    let count = header.sound_effect_flags.len() as int;
    let at_background = pos + stored_header.len();
    let at_effect_1 = at_background + bgm.len();
    let at_effect_2 = at_effect_1 + se1.len();
    let at_effect_3 = at_effect_2 + se2.len();
    lemma_five_pieces(front, stored_header, bgm, se1, se2, se3, rest);
    lemma_header_reads_back(
        header,
        sound_header_start,
        bgm.len() as u32,
        se1.len() as u32,
        se2.len() as u32,
        se3.len() as u32,
        bytes,
        pos,
    );
    let read_header = AudioHeaderView {
        sound_effect_flags: header.sound_effect_flags,
        bgm_track_size: bgm.len() as u32,
        se1_track_size: se1.len() as u32,
        se2_track_size: se2.len() as u32,
        se3_track_size: se3.len() as u32,
        frame_playback_speed: header.frame_playback_speed,
        frame_playback_speed_when_recording: header.frame_playback_speed_when_recording,
    };
    assert(spec_stored_rate(read_header, true) == spec_stored_rate(header, true));
    lemma_stored_track_read(bytes, at_background, bgm, read_header, true);
    lemma_stored_track_read(bytes, at_effect_1, se1, read_header, false);
    lemma_stored_track_read(bytes, at_effect_2, se2, read_header, false);
    lemma_stored_track_read(bytes, at_effect_3, se3, read_header, false);
    if stored_tracks_read(header, bgm, se1, se2, se3) {
        lemma_read_audio_succeeds(
            bytes,
            pos,
            count,
            sound_header_start,
            read_header,
            at_background,
        );
    } else {
        lemma_track_outcomes_differ(bytes, at_background, bgm.len() as u32, read_header, true);
        lemma_track_outcomes_differ(bytes, at_effect_1, se1.len() as u32, read_header, false);
        lemma_track_outcomes_differ(bytes, at_effect_2, se2.len() as u32, read_header, false);
        lemma_track_outcomes_differ(bytes, at_effect_3, se3.len() as u32, read_header, false);
        lemma_read_audio_fails(bytes, pos, count, sound_header_start, read_header, at_background);
    }
}

/// A track is not both read and refused.
proof fn lemma_track_outcomes_differ(
    bytes: Seq<u8>,
    pos: int,
    size: u32,
    header: AudioHeaderView,
    is_bgm: bool,
)
    ensures
        !(track_is_read(bytes, pos, size, header, is_bgm) && track_does_not_fit(
            bytes,
            pos,
            size,
            header,
            is_bgm,
        )),
{
    reveal(track_is_read);
    reveal(track_does_not_fit);
}

/// An audio section that was written is read again exactly where its tracks can be read as
/// they are written: whatever stands in front of it and behind it, reading at its place
/// then succeeds and ends right behind it, given that its timeline can be made. Where a
/// track cannot be read, reading fails with `Codec`.
pub proof fn lemma_audio_reads_back(
    audio: AudioView,
    frame_count: int,
    sound_header_start: int,
    front: Seq<u8>,
    rest: Seq<u8>,
)
    requires
        spec_write_audio(audio, frame_count, sound_header_start) is Ok,
        timeline_possible(audio.header),
    ensures
        ({
            let section = spec_write_audio(audio, frame_count, sound_header_start)->Ok_0.0;
            let read = spec_read_audio(
                front + section + rest,
                front.len() as int,
                frame_count,
                sound_header_start,
            );
            &&& rewritten_tracks_read(audio) ==> read is Ok && read->Ok_0.1 == front.len()
                + section.len()
            &&& !rewritten_tracks_read(audio) ==> read == Err::<(AudioView, int), PpmError>(
                PpmError::Codec,
            )
        }),
{
    lemma_written_section(audio, frame_count, sound_header_start);
    let tracks = spec_encode_tracks(audio)->Ok_0;
    assert(rewritten_tracks_read(audio) == stored_tracks_read(
        audio.header,
        tracks.0,
        tracks.1,
        tracks.2,
        tracks.3,
    ));
    lemma_section_reads_back(
        audio.header,
        sound_header_start,
        tracks.0,
        tracks.1,
        tracks.2,
        tracks.3,
        front,
        rest,
    );
}

/// On a machine whose sizes have 48 bits or more, every stored track can be read: a track
/// of less than 2^32 bytes decodes to less than 2^33 samples, which are less than 2^48 at
/// the playback rate.
#[verifier::rlimit(50)]
pub proof fn lemma_stored_track_reads(piece: Seq<u8>, source_rate: i32)
    requires
        usize::MAX >= 0xFFFF_FFFF_FFFF,
        stored_track_shape(piece),
        source_rate > 0,
    ensures
        stored_track_reads(piece, source_rate),
{
    if piece.len() > 0 {
        let samples = 2 * (piece.len() - ADPCM_STATE_HEADER_SIZE);
        let rate = source_rate as int;
        let total = samples * PPM_AUDIO_PLAYBACK_SAMPLE_RATE + rate - 1;
        assert(0 <= samples * PPM_AUDIO_PLAYBACK_SAMPLE_RATE <= 0x2_0000_0000 * 32720)
            by (nonlinear_arith)
            requires
                0 <= samples <= 0x2_0000_0000,
        ;
        assert(0 <= total / rate <= total) by (nonlinear_arith)
            requires
                0 <= total,
                rate >= 1,
        ;
        assert(piece.subrange(0int + 4, 0int + piece.len()).len() == piece.len() - 4);
    }
}

/// On a machine whose sizes have 48 bits or more, the tracks of every audio section can be
/// read again as they are written.
pub proof fn lemma_rewritten_tracks_read(audio: AudioView)
    requires
        usize::MAX >= 0xFFFF_FFFF_FFFF,
        spec_encode_tracks(audio) is Ok,
    ensures
        rewritten_tracks_read(audio),
{
    let tracks = spec_encode_tracks(audio)->Ok_0;
    lemma_encoded_track_shape(audio.effect_1, PPM_AUDIO_SAMPLE_RATE);
    lemma_encoded_track_shape(audio.effect_2, PPM_AUDIO_SAMPLE_RATE);
    lemma_encoded_track_shape(audio.effect_3, PPM_AUDIO_SAMPLE_RATE);
    lemma_stored_track_reads(tracks.1, PPM_AUDIO_SAMPLE_RATE);
    lemma_stored_track_reads(tracks.2, PPM_AUDIO_SAMPLE_RATE);
    lemma_stored_track_reads(tracks.3, PPM_AUDIO_SAMPLE_RATE);
    let rate = spec_bgm_rate(
        audio.header.frame_playback_speed,
        audio.header.frame_playback_speed_when_recording,
    );
    if audio.background is Some {
        lemma_framerate_range(audio.header.frame_playback_speed);
        lemma_framerate_range(audio.header.frame_playback_speed_when_recording);
        let scaled = PPM_AUDIO_SAMPLE_RATE * spec_framerate_doubled(
            audio.header.frame_playback_speed,
        );
        let recorded = spec_framerate_doubled(audio.header.frame_playback_speed_when_recording);
        assert(136 <= scaled / recorded <= 490800) by (nonlinear_arith)
            requires
                8180 <= scaled <= 490800,
                1 <= recorded <= 60,
        ;
        lemma_encoded_track_shape(audio.background, rate as i32);
        lemma_stored_track_reads(tracks.0, rate as i32);
    }
}

} // verus!

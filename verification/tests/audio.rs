use libflipnote::error::PpmError;
use libflipnote::ppm::audio::adpcm_decoder::{
    decode_adpcm, decode_step, mix_pcm_audio, resample, try_get_sample, AdpcmState,
};
use libflipnote::ppm::audio::adpcm_encoder::{encode_adpcm, encode_sample};
use libflipnote::ppm::audio::adpcm_ima;
use libflipnote::ppm::audio::audio::{AudioTrackHeader, PPMAudio};
use libflipnote::ppm::audio::audio_header::{PPMAudioHeader, Ratio};
use libflipnote::ppm::audio::wav_container::WavContainer;
use libflipnote::ppm::constants::{ADPCM_INDEX_TABLE, ADPCM_STEP_TABLE};
use libflipnote::ppm::parsers::audio_parser::{audio_parser, header_padding, mix_audio};
use libflipnote::ppm::writers::audio_writer::audio_writer;

fn wave(count: usize) -> Vec<i16> {
    let mut samples = Vec::with_capacity(count);
    let mut value: i32 = 0;
    let mut slope: i32 = 37;
    for i in 0..count {
        if i % 50 == 0 {
            slope = -slope;
        }
        value += slope + (i as i32 % 7) - 3;
        samples.push(value.clamp(-32768, 32767) as i16);
    }
    samples
}

fn noise(count: usize, seed: u32) -> Vec<u8> {
    let mut state = seed;
    let mut bytes = Vec::with_capacity(count);
    for _ in 0..count {
        state = state.wrapping_mul(1103515245).wrapping_add(12345);
        bytes.push((state >> 16) as u8);
    }
    bytes
}

fn header(flags: Vec<u8>, speed: u8, recording: u8) -> PPMAudioHeader {
    PPMAudioHeader {
        sound_effect_flags: flags,
        bgm_track_size: 0,
        se1_track_size: 0,
        se2_track_size: 0,
        se3_track_size: 0,
        frame_playback_speed: speed,
        frame_playback_speed_when_recording: recording,
    }
}

fn track(samples: Vec<i16>) -> Option<WavContainer> {
    Some(WavContainer::from_samples(samples, 1, 32720, 16))
}

#[test]
fn tables_have_their_published_shape() {
    assert_eq!(ADPCM_STEP_TABLE.len(), 89);
    assert_eq!(ADPCM_STEP_TABLE[0], 7);
    assert_eq!(ADPCM_STEP_TABLE[88], 32767);
    assert!(ADPCM_STEP_TABLE.windows(2).all(|pair| pair[0] < pair[1]));
    assert_eq!(ADPCM_INDEX_TABLE.len(), 16);
    for code in 0..8 {
        assert_eq!(ADPCM_INDEX_TABLE[code], ADPCM_INDEX_TABLE[code + 8]);
    }
}

#[test]
fn decoding_follows_the_step_formula() {
    // Code 7 at step 7: 0 + 1 + 3 + 7 = 11, then code 0 at step 16: 2.
    assert_eq!(decode_adpcm(&[0x07], 0, 0), Ok(vec![11, 13]));
    // Code 15 is the same change downwards.
    assert_eq!(decode_adpcm(&[0x0F], 0, 0), Ok(vec![-11, -9]));
    assert_eq!(decode_adpcm(&[], 5, 3), Ok(vec![]));
    let next = decode_step(AdpcmState { predictor: 100, step_index: 10 }, 0xC);
    // Step 19: 2 + 19 = 21 downwards; the index moves by 2.
    assert_eq!(next, AdpcmState { predictor: 79, step_index: 12 });
}

#[test]
fn decoding_clamps_predictor_and_step_index() {
    let up = decode_adpcm(&[0x77, 0x77], 32000, 88).unwrap();
    assert_eq!(up, vec![32767, 32767, 32767, 32767]);
    let down = decode_adpcm(&[0xFF], -32000, 200).unwrap();
    assert_eq!(down, vec![-32768, -32768]);
    // Code 0 behind code 0 keeps the step index at 0.
    assert_eq!(decode_adpcm(&[0x00, 0x00], 0, 0), Ok(vec![0, 0, 0, 0]));
}

#[test]
fn decoder_agrees_with_the_outside_codec() {
    for seed in 0..8u32 {
        let data = noise(300, seed);
        let expected: Vec<i16> = {
            let mut state = audio_codec_algorithms::AdpcmImaState::new();
            state.predictor = -1234;
            state.step_index = 17;
            let mut samples = Vec::new();
            for byte in data.iter() {
                samples.push(audio_codec_algorithms::decode_adpcm_ima(*byte & 0xF, &mut state));
                samples.push(audio_codec_algorithms::decode_adpcm_ima(*byte >> 4, &mut state));
            }
            samples
        };
        assert_eq!(decode_adpcm(&data, -1234, 17), Ok(expected.clone()));
        let header = AudioTrackHeader { predictor: -1234, step_index: 17, imported: 0 };
        let container = adpcm_ima::decode_adpcm(&data, 8180, header).unwrap();
        assert_eq!(container.get_samples(), expected);
        assert_eq!(container.get_sample_rate(), 8180);
        assert_eq!(container.channels, 1);
        assert_eq!(container.bits_per_sample, 16);
    }
}

#[test]
fn stored_track_encoder_agrees_with_the_outside_codec() {
    let samples = wave(501);
    let (header, data) = adpcm_ima::encode_adpcm(&samples).unwrap();
    assert_eq!(header, AudioTrackHeader::default());
    let mut state = audio_codec_algorithms::AdpcmImaState::new();
    let mut expected = Vec::new();
    for pair in samples.chunks(2) {
        let low = audio_codec_algorithms::encode_adpcm_ima(pair[0], &mut state);
        let high = if pair.len() > 1 {
            audio_codec_algorithms::encode_adpcm_ima(pair[1], &mut state)
        } else {
            0
        };
        expected.push(high << 4 | low);
    }
    assert_eq!(data.len(), 251);
    assert_eq!(data, expected);
    assert!(data.iter().any(|byte| *byte != 0));
}

#[test]
fn encoding_follows_the_quotient_formula() {
    // 11 at step 7: 44 / 7 = 6; 13 against the prediction 10 at step 13: 12 / 13 = 0.
    assert_eq!(encode_adpcm(&[11, 13]), Ok(vec![0x06]));
    assert_eq!(decode_adpcm(&[0x06], 0, 0), Ok(vec![10, 11]));
    assert_eq!(encode_adpcm(&[-11]), Ok(vec![0x0E]));
    assert_eq!(encode_adpcm(&[]), Ok(vec![]));
    let mut previous = 0;
    let mut step_index = 0;
    assert_eq!(encode_sample(1000, &mut previous, &mut step_index), 7);
    assert_eq!((previous, step_index), (11, 8));
    assert_eq!(encode_sample(-1000, &mut previous, &mut step_index), 15);
    assert_eq!((previous, step_index), (-19, 16));
}

#[test]
fn silence_stays_silent() {
    for count in [0usize, 1, 2, 7, 64] {
        let encoded = encode_adpcm(&vec![0i16; count]).unwrap();
        assert_eq!(encoded, vec![0u8; (count + 1) / 2]);
        let decoded = decode_adpcm(&encoded, 0, 0).unwrap();
        assert_eq!(decoded, vec![0i16; 2 * ((count + 1) / 2)]);
    }
}

#[test]
fn decoded_samples_stay_near_the_encoded_ones() {
    let samples = wave(2000);
    let encoded = encode_adpcm(&samples).unwrap();
    let decoded = decode_adpcm(&encoded, 0, 0).unwrap();
    assert_eq!(decoded.len(), samples.len());
    let mut predictor: i32 = 0;
    let mut step_index: i32 = 0;
    for (i, sample) in samples.iter().enumerate() {
        let step = ADPCM_STEP_TABLE[step_index as usize];
        let before = (*sample as i32 - predictor).abs();
        encode_sample(*sample as i32, &mut predictor, &mut step_index);
        assert_eq!(decoded[i] as i32, predictor);
        let after = (*sample as i32 - predictor).abs();
        if before < 2 * step {
            assert!(after <= step / 8 + 3);
        } else {
            assert!(after <= before - step);
        }
    }
    let worst = samples.iter().zip(decoded.iter()).skip(100)
        .map(|(a, b)| (*a as i32 - *b as i32).abs()).max().unwrap();
    assert!(worst <= 64);
}

#[test]
fn resampling_repeats_the_nearest_earlier_sample() {
    assert_eq!(resample(&[1, 2, 3, 4], 2, 3), Ok(vec![1, 1, 2, 3, 3, 4]));
    assert_eq!(resample(&[1, 2, 3, 4, 5], 4, 2), Ok(vec![1, 3, 5]));
    assert_eq!(resample(&[9], 1, 4), Ok(vec![9, 9, 9, 9]));
    assert_eq!(resample(&[], 8180, 32720), Ok(vec![]));
    assert_eq!(resample(&[7, 8, 9], 8180, 8180), Ok(vec![7, 8, 9]));
}

#[test]
fn resampled_length_is_the_rounded_up_quotient() {
    let samples = wave(1000);
    for (source, destination) in [(8180, 32720), (32720, 8180), (8180, 12270), (44100, 8180), (3, 7)] {
        let out = resample(&samples, source, destination).unwrap();
        let expected = (1000u64 * destination as u64 + source as u64 - 1) / source as u64;
        assert_eq!(out.len() as u64, expected);
        for (i, sample) in out.iter().enumerate() {
            assert_eq!(*sample, samples[i * source as usize / destination as usize]);
        }
    }
}

#[test]
fn resampling_needs_positive_frequencies() {
    assert_eq!(resample(&[1, 2], 0, 8180), Err(PpmError::Codec));
    assert_eq!(resample(&[1, 2], 8180, 0), Err(PpmError::Codec));
    assert_eq!(resample(&[1, 2], -1, 8180), Err(PpmError::Codec));
    assert_eq!(resample(&[], 8180, -8180), Err(PpmError::Codec));
}

#[test]
fn sample_access_checks_its_bounds() {
    assert_eq!(try_get_sample(&[4, 5], 1), Ok(5));
    assert_eq!(try_get_sample(&[4, 5], 2), Err(PpmError::Bounds));
    assert_eq!(try_get_sample(&[], 0), Err(PpmError::Bounds));
}

#[test]
fn mixing_adds_half_and_clamps() {
    let source = [32767, -32768, 3, -3];
    let destination = [32767, -32768, 0, 0, 7];
    assert_eq!(
        mix_pcm_audio(&source, &destination, 1),
        Ok(vec![32767, -16385, -16384, 1, 6])
    );
    assert_eq!(mix_pcm_audio(&[32767, 32767], &[32767, 20000], 0), Ok(vec![32767, 32767]));
    assert_eq!(mix_pcm_audio(&[-32768, -32768], &[-32768, -20000], 0), Ok(vec![-32768, -32768]));
}

#[test]
fn mixing_drops_what_lies_behind_the_end() {
    assert_eq!(mix_pcm_audio(&[10, 20, 30], &[1, 1], 1), Ok(vec![1, 6]));
    assert_eq!(mix_pcm_audio(&[10, 20, 30], &[1, 1], 2), Ok(vec![1, 1]));
    assert_eq!(mix_pcm_audio(&[10], &[1, 1], usize::MAX), Ok(vec![1, 1]));
    assert_eq!(mix_pcm_audio(&[10], &[], 0), Ok(vec![]));
    assert_eq!(mix_pcm_audio(&[], &[4, 4], 0), Ok(vec![4, 4]));
}

#[test]
fn containers_mix_only_with_equal_channels() {
    let mono = WavContainer::from_samples(vec![100, 100, 100, 100], 1, 32720, 16);
    let stereo = WavContainer::from_samples(vec![50, 50], 2, 32720, 16);
    assert_eq!(mono.mix(&stereo, 0).err(), Some(PpmError::Audio));
    let other = WavContainer::from_samples(vec![50, -50], 1, 32720, 16);
    let mixed = mono.mix(&other, 2).unwrap();
    assert_eq!(mixed.get_samples(), vec![100, 100, 125, 75]);
    assert_eq!(mixed.get_sample_rate(), 32720);
    // A track at another rate is brought to the rate of the timeline first.
    let slow = WavContainer::from_samples(vec![40, 80], 1, 16360, 16);
    let mixed = mono.mix(&slow, 0).unwrap();
    assert_eq!(mixed.get_samples(), vec![120, 120, 140, 140]);
    let broken = WavContainer::from_samples(vec![40, 80], 1, 0, 16);
    assert_eq!(mono.mix(&broken, 0).err(), Some(PpmError::Codec));
}

#[test]
fn container_resamples_by_nearest_neighbour() {
    let sound = WavContainer::from_samples(vec![1, 2, 3], 1, 8180, 16);
    let same = sound.resample(8180).unwrap();
    assert_eq!(same.get_samples(), vec![1, 2, 3]);
    let fast = sound.resample(32720).unwrap();
    assert_eq!(fast.get_samples(), vec![1, 1, 1, 1, 2, 2, 2, 2, 3, 3, 3, 3]);
    assert_eq!(fast.get_sample_rate(), 32720);
    assert_eq!(fast.channels, 1);
    assert_eq!(sound.resample(0).err(), Some(PpmError::Codec));
    let empty = WavContainer::default();
    assert_eq!(empty.resample(0).unwrap().get_samples(), Vec::<i16>::new());
    assert_eq!(sound.get_pcm_bytes(), vec![1, 0, 2, 0, 3, 0]);
    let negative = WavContainer::from_samples(vec![-2, 256], 1, 8180, 16);
    assert_eq!(negative.get_pcm_bytes(), vec![0xFE, 0xFF, 0x00, 0x01]);
}

#[test]
fn frame_rates_come_from_the_speed_table() {
    let expected = [60u128, 40, 24, 12, 8, 4, 2, 1, 1];
    for speed in 0..=8u8 {
        let h = header(vec![0; 3], speed, 8 - speed);
        assert_eq!(
            h.get_framerate(),
            Ok(Ratio { numerator: expected[speed as usize], denominator: 2 })
        );
        assert_eq!(
            h.get_bgm_framerate(),
            Ok(Ratio { numerator: expected[8 - speed as usize], denominator: 2 })
        );
    }
    let invalid = header(vec![0; 3], 9, 0);
    assert_eq!(invalid.get_framerate(), Err(PpmError::Format));
    assert_eq!(invalid.get_duration(), Err(PpmError::Format));
    assert_eq!(invalid.get_bgm_sample_rate(), Err(PpmError::Format));
    assert_eq!(header(vec![], 0, 255).get_bgm_framerate(), Err(PpmError::Format));
    assert_eq!(header(vec![], 0, 255).get_bgm_sample_rate(), Err(PpmError::Format));
}

#[test]
fn duration_counts_the_frames_behind_the_first() {
    // Thirteen frames at 6 frames per second: 12 / 6 = 2 seconds.
    let h = header(vec![0; 13], 3, 3);
    assert_eq!(h.get_duration(), Ok(Ratio { numerator: 24, denominator: 12 }));
    assert_eq!(header(vec![], 3, 3).get_duration(), Ok(Ratio { numerator: 0, denominator: 12 }));
    assert_eq!(header(vec![0], 8, 3).get_duration(), Ok(Ratio { numerator: 0, denominator: 1 }));
}

#[test]
fn background_rate_scales_with_the_speed_change() {
    assert_eq!(header(vec![], 3, 3).get_bgm_sample_rate(), Ok(8180));
    // Played at 30 frames per second, recorded at 20: 8180 * 30 / 20.
    assert_eq!(header(vec![], 0, 1).get_bgm_sample_rate(), Ok(12270));
    // Played at 0.5, recorded at 30: 8180 / 60, rounded down.
    assert_eq!(header(vec![], 8, 0).get_bgm_sample_rate(), Ok(136));
    assert_eq!(header(vec![], 0, 8).get_bgm_sample_rate(), Ok(490800));
    assert_eq!(header(vec![], 2, 4).get_bgm_sample_rate(), Ok(24540));
}

#[test]
fn timeline_places_each_effect_on_its_frame() {
    // Three frames at 6 frames per second: 2 / 6 seconds, 10907 samples; frame 1 starts at
    // sample 5454.
    let audio = PPMAudio {
        audio_header: header(vec![1, 2, 4], 3, 3),
        background_track: track(vec![200, 300]),
        sound_effect_1_track: track(vec![1000; 4]),
        sound_effect_2_track: track(vec![2000, -2000]),
        sound_effect_3_track: track(vec![30000; 8]),
        mixed_tracks: None,
    };
    let mixed = mix_audio(&audio).unwrap().unwrap();
    let samples = mixed.get_samples();
    assert_eq!(samples.len(), 10907);
    assert_eq!(mixed.get_sample_rate(), 32720);
    assert_eq!(&samples[0..5], &[600, 650, 500, 500, 0]);
    assert_eq!(&samples[5453..5457], &[0, 1000, -1000, 0]);
    // Frame 2 starts at the very end: effect 3 is dropped.
    assert_eq!(samples[10906], 0);
    assert_eq!(samples.iter().filter(|s| **s != 0).count(), 6);
}

#[test]
fn timeline_without_tracks_is_silent() {
    let audio = PPMAudio {
        audio_header: header(vec![7, 7], 0, 0),
        background_track: None,
        sound_effect_1_track: None,
        sound_effect_2_track: None,
        sound_effect_3_track: None,
        mixed_tracks: None,
    };
    let mixed = mix_audio(&audio).unwrap().unwrap();
    // One frame time at 30 frames per second: 32720 / 30, rounded up.
    assert_eq!(mixed.get_samples(), vec![0i16; 1091]);
    let empty = PPMAudio::default();
    assert_eq!(mix_audio(&empty).unwrap().unwrap().get_samples(), Vec::<i16>::new());
}

#[test]
fn timeline_reports_its_failures() {
    let mut audio = PPMAudio::default();
    audio.audio_header = header(vec![1, 0], 9, 0);
    assert_eq!(mix_audio(&audio).err(), Some(PpmError::Format));
    audio.audio_header = header(vec![0, 1], 3, 3);
    audio.sound_effect_1_track = Some(WavContainer::from_samples(vec![1, 2], 2, 32720, 16));
    assert_eq!(mix_audio(&audio).err(), Some(PpmError::Audio));
    // An effect that never sounds is never mixed.
    audio.audio_header = header(vec![0, 6], 3, 3);
    assert!(mix_audio(&audio).is_ok());
}

#[test]
fn sound_header_is_aligned_to_four_bytes() {
    assert_eq!(header_padding(0), 0);
    assert_eq!(header_padding(1), 3);
    assert_eq!(header_padding(2), 2);
    assert_eq!(header_padding(3), 1);
    assert_eq!(header_padding(0x6A0), 0);
    assert_eq!(header_padding(0x6A5), 3);
}

#[test]
fn audio_section_is_read_from_its_bytes() {
    let mut bytes = vec![0xAAu8; 3];
    bytes.extend_from_slice(&[1, 6]);
    bytes.extend_from_slice(&[0, 0, 0]);
    bytes.extend_from_slice(&[5, 0, 0, 0]);
    bytes.extend_from_slice(&[0, 0, 0, 0]);
    bytes.extend_from_slice(&[6, 0, 0, 0]);
    bytes.extend_from_slice(&[0, 0, 0, 0]);
    bytes.extend_from_slice(&[3, 4]);
    bytes.extend_from_slice(&[0u8; 14]);
    bytes.extend_from_slice(&[0, 0, 0, 0, 0x07]);
    bytes.extend_from_slice(&[0x0A, 0x00, 0x02, 0x00, 0x06, 0x00]);
    bytes.extend_from_slice(&[0xBB; 4]);
    let (audio, next) = audio_parser(&bytes, 3, 2, 5).unwrap();
    assert_eq!(next, bytes.len() - 4);
    assert_eq!(audio.audio_header.sound_effect_flags, vec![1, 6]);
    assert_eq!(audio.audio_header.bgm_track_size, 5);
    assert_eq!(audio.audio_header.se2_track_size, 6);
    // Played at 6 frames per second, recorded at 4: 8180 * 12 / 8 = 12270 samples a second.
    let background = audio.background_track.as_ref().unwrap();
    assert_eq!(background.get_sample_rate(), 32720);
    let decoded = decode_adpcm(&[0x07], 0, 0).unwrap();
    assert_eq!(background.get_samples(), resample(&decoded, 12270, 32720).unwrap());
    assert_eq!(background.get_samples().len(), 6);
    assert!(audio.sound_effect_1_track.is_none());
    assert!(audio.sound_effect_3_track.is_none());
    let effect = audio.sound_effect_2_track.as_ref().unwrap();
    let decoded = decode_adpcm(&[0x06, 0x00], 10, 2).unwrap();
    assert_eq!(effect.get_samples(), resample(&decoded, 8180, 32720).unwrap());
    assert_eq!(effect.get_samples().len(), 16);
    let mixed = audio.mixed_tracks.as_ref().unwrap().get_samples();
    assert_eq!(mixed.len(), 5454);
    assert_eq!(mixed[0], 5);
}

#[test]
fn audio_section_failures_are_typed() {
    let mut bytes = vec![0u8; 2];
    bytes.extend_from_slice(&[0, 0]);
    bytes.extend_from_slice(&[3, 0, 0, 0]);
    bytes.extend_from_slice(&[0u8; 12]);
    bytes.extend_from_slice(&[3, 4]);
    bytes.extend_from_slice(&[0u8; 14]);
    bytes.extend_from_slice(&[0u8; 8]);
    // A track shorter than its codec state.
    assert_eq!(audio_parser(&bytes, 0, 2, 2).err(), Some(PpmError::Format));
    bytes[4] = 100;
    assert_eq!(audio_parser(&bytes, 0, 2, 2).err(), Some(PpmError::Format));
    bytes[4] = 8;
    bytes[20] = 9;
    assert_eq!(audio_parser(&bytes, 0, 2, 2).err(), Some(PpmError::Format));
    bytes[20] = 3;
    assert!(audio_parser(&bytes, 0, 2, 2).is_ok());
    assert_eq!(audio_parser(&bytes[..30], 0, 2, 2).err(), Some(PpmError::Format));
    assert_eq!(audio_parser(&bytes, bytes.len() + 1, 2, 2).err(), Some(PpmError::Format));
}

#[test]
fn audio_section_is_written_with_new_sizes() {
    let audio = PPMAudio {
        audio_header: header(vec![1, 0, 2], 3, 4),
        background_track: track(wave(400)),
        sound_effect_1_track: None,
        sound_effect_2_track: track(vec![500; 40]),
        sound_effect_3_track: track(vec![]),
        mixed_tracks: None,
    };
    let (bytes, sound_size) = audio_writer(&audio, 3, 0x6A3).unwrap();
    assert_eq!(&bytes[0..3], &[1, 0, 2]);
    assert_eq!(bytes[3], 0);
    // Background: 400 samples at 32720 become 150 at 12270, 75 bytes and the codec state.
    assert_eq!(&bytes[4..8], &[79, 0, 0, 0]);
    assert_eq!(&bytes[8..12], &[0, 0, 0, 0]);
    // Effect 2: 40 samples become 10 at 8180, 5 bytes and the codec state.
    assert_eq!(&bytes[12..16], &[9, 0, 0, 0]);
    assert_eq!(&bytes[16..20], &[0, 0, 0, 0]);
    assert_eq!(&bytes[20..22], &[3, 4]);
    assert_eq!(&bytes[22..36], &[0u8; 14]);
    assert_eq!(sound_size, 88);
    assert_eq!(bytes.len(), 36 + 88);
    let (read, next) = audio_parser(&bytes, 0, 3, 0x6A3).unwrap();
    assert_eq!(next, bytes.len());
    assert_eq!(read.audio_header.sound_effect_flags, vec![1, 0, 2]);
    assert_eq!(read.audio_header.bgm_track_size, 79);
    assert_eq!(read.background_track.unwrap().get_samples().len(), 400);
    assert_eq!(read.sound_effect_2_track.unwrap().get_samples().len(), 40);
    assert!(read.sound_effect_3_track.is_none());
    assert_eq!(audio_writer(&audio, 4, 0).err(), Some(PpmError::Format));
    let mut invalid = audio.clone();
    invalid.audio_header.frame_playback_speed_when_recording = 9;
    assert_eq!(audio_writer(&invalid, 3, 0).err(), Some(PpmError::Format));
}

#[test]
fn wave_file_round_trips_through_the_outside_codec() {
    let sound = WavContainer::from_samples(wave(100), 1, 32720, 16);
    let file = sound.get_wav_buffer().unwrap();
    assert_eq!(&file[0..4], b"RIFF");
    assert_eq!(&file[8..12], b"WAVE");
    assert_eq!(file.len(), 44 + 200);
    assert_eq!(&file[44..], sound.get_pcm_bytes().as_slice());
    let read = WavContainer::from_wav_buffer(file).unwrap();
    assert_eq!(read.get_samples(), wave(100));
    assert_eq!(read.get_sample_rate(), 32720);
    assert_eq!((read.channels, read.bits_per_sample), (1, 16));
    assert_eq!(WavContainer::from_wav_buffer(vec![1, 2, 3]).err(), Some(PpmError::Format));
    assert_eq!(WavContainer::default().get_wav_buffer().err(), Some(PpmError::Codec));
    let odd = WavContainer::from_samples(vec![1], 1, 8180, 12);
    assert_eq!(odd.get_wav_buffer().err(), Some(PpmError::Codec));
}

#[test]
fn raw_audio_stream_is_little_endian() {
    let mut audio = PPMAudio::default();
    assert_eq!(audio.audio_stream(0), Ok(vec![]));
    assert_eq!(audio.audio_stream(8180), Err(PpmError::Codec));
    audio.mixed_tracks = track(vec![1, -1]);
    assert_eq!(audio.audio_stream(32720), Ok(vec![1, 0, 0xFF, 0xFF]));
    assert_eq!(audio.audio_stream(65440), Ok(vec![1, 0, 1, 0, 0xFF, 0xFF, 0xFF, 0xFF]));
}

#[test]
fn stored_track_stays_near_its_samples() {
    let samples = wave(2000);
    let (header, data) = adpcm_ima::encode_adpcm(&samples).unwrap();
    let decoded = adpcm_ima::decode_adpcm(&data, 8180, header).unwrap().get_samples();
    assert_eq!(decoded.len(), samples.len());
    let mut state = AdpcmState { predictor: 0, step_index: 0 };
    for (i, sample) in samples.iter().enumerate() {
        let step = ADPCM_STEP_TABLE[state.step_index as usize];
        let before = (*sample as i32 - state.predictor).abs();
        let code = if i % 2 == 0 { data[i / 2] % 16 } else { data[i / 2] / 16 };
        state = decode_step(state, code);
        assert_eq!(decoded[i] as i32, state.predictor);
        let after = (*sample as i32 - state.predictor).abs();
        if before < 2 * step {
            assert!(after <= step / 8 + 3);
        } else {
            assert!(after <= before - step);
        }
    }
}

#[test]
fn silent_track_is_stored_as_zero_bytes() {
    for count in [0usize, 1, 2, 9, 64] {
        let (header, data) = adpcm_ima::encode_adpcm(&vec![0i16; count]).unwrap();
        assert_eq!(data, vec![0u8; (count + 1) / 2]);
        let decoded = adpcm_ima::decode_adpcm(&data, 8180, header).unwrap();
        assert_eq!(decoded.get_samples(), vec![0i16; 2 * ((count + 1) / 2)]);
    }
}

#[test]
fn stored_track_encoder_compares_with_step_half_and_quarter() {
    // At step 7 a distance of 3 reaches half the step, not the step: code 2.
    assert_eq!(adpcm_ima::encode_adpcm(&[3]).unwrap().1, vec![0x02]);
    assert_eq!(adpcm_ima::encode_adpcm(&[-3]).unwrap().1, vec![0x0A]);
    // The quotient rule of the other encoder gives 12 / 7 = 1 for the same sample.
    assert_eq!(encode_adpcm(&[3]), Ok(vec![0x01]));
    assert_eq!(adpcm_ima::encode_adpcm(&[1000]).unwrap().1, vec![0x07]);
}

#[test]
fn wave_writer_is_handed_accepted_depths_only() {
    for bits in [0u16, 1, 7, 9, 12, 15, 17, 31, 33, 64, 0xFFFF] {
        let sound = WavContainer::from_samples(vec![1, 2, 3], 1, 8000, bits);
        assert_eq!(sound.get_wav_buffer().err(), Some(PpmError::Codec));
        let empty = WavContainer::from_samples(vec![], 2, 8000, bits);
        assert_eq!(empty.get_wav_buffer().err(), Some(PpmError::Codec));
    }
    assert_eq!(
        WavContainer::from_samples(vec![1], 0, 8000, 16).get_wav_buffer().err(),
        Some(PpmError::Codec)
    );
    assert_eq!(
        WavContainer::from_samples(vec![1], 1, 0, 16).get_wav_buffer().err(),
        Some(PpmError::Codec)
    );
    let narrow = WavContainer::from_samples(vec![100, -100], 1, 8000, 8);
    assert_eq!(narrow.get_wav_buffer().unwrap().len(), 44 + 2);
    // A sample that does not fit in 8 bits is refused by the writer.
    let wide = WavContainer::from_samples(vec![100, 1000], 1, 8000, 8);
    assert_eq!(wide.get_wav_buffer().err(), Some(PpmError::Codec));
    let deep = WavContainer::from_samples(vec![1, 2], 1, 8000, 24);
    assert!(deep.get_wav_buffer().is_ok());
    let deepest = WavContainer::from_samples(vec![1, 2], 2, 8000, 32);
    assert!(deepest.get_wav_buffer().is_ok());
}

use libflipnote::error::PpmError;
use libflipnote::ppm::audio::audio::PPMAudio;
use libflipnote::ppm::audio::audio_header::{PPMAudioHeader, Ratio};
use libflipnote::ppm::audio::wav_container::WavContainer;
use libflipnote::ppm::constants::{FLIPNOTE_STUDIO_PUBLIC_KEY, PPM_FORMAT_VERSION};
use libflipnote::ppm::file::{encoder_result, PPMFile};
use libflipnote::ppm::frames::animation_data::PPMAnimationData;
use libflipnote::ppm::frames::animation_flags::PPMAnimationFlags;
use libflipnote::ppm::thumbnail::{PPMThumbnail, PPMThumbnailTile};
use libflipnote::utils::crypto::{accept_signature, hash_data, sign, verify};

const PRIME_P: &str = "13103558895911429258178946864741238577568323931358112715990935943230678240421963884710553504668532725664102096377402772142033172504574889770493782887121577";
const PRIME_Q: &str = "10771324985861030402077234200163337712452704027901211515781137416584876199487024467302216227928844808655851976878541912059181658139960776890997473886897591";

fn test_key() -> rsa::RsaPrivateKey {
    let p = rsa::BigUint::parse_bytes(PRIME_P.as_bytes(), 10).unwrap();
    let q = rsa::BigUint::parse_bytes(PRIME_Q.as_bytes(), 10).unwrap();
    rsa::RsaPrivateKey::from_p_q(p, q, rsa::BigUint::from(65537u32)).unwrap()
}

fn test_public_pem() -> String {
    let public = rsa::RsaPublicKey::from(&test_key());
    rsa::pkcs8::EncodePublicKey::to_public_key_pem(&public, rsa::pkcs8::LineEnding::LF).unwrap()
}

fn whole_frame() -> Vec<u8> {
    let mut bytes = vec![0x9Du8];
    let mut selectors = vec![0u8; 96];
    selectors[0] = 0xC0;
    bytes.extend_from_slice(&selectors);
    let mut raw = vec![0u8; 32];
    raw[0] = 0x01;
    bytes.extend_from_slice(&raw);
    bytes
}

fn difference_frame() -> Vec<u8> {
    let mut bytes = vec![0x3Du8, 0x01, 0x00];
    let mut selectors = vec![0u8; 96];
    selectors[0] = 0x40;
    bytes.extend_from_slice(&selectors);
    bytes.extend_from_slice(&[0x80, 0x00, 0x00, 0x00, 0x06]);
    bytes
}

fn sample_file() -> PPMFile {
    let first = whole_frame();
    let second = difference_frame();
    let mut blob = first.clone();
    blob.extend_from_slice(&second);
    let mut file = PPMFile::new();
    file.frame_count = 1;
    file.locked_buf = 1;
    file.thumbnail_frame_index = 1;
    file.root_name_buf = (0..22).collect();
    file.parent_name_buf = (22..44).collect();
    file.child_name_buf = (44..66).collect();
    file.parent_id = 0x0102030405060708;
    file.current_id = 0x1112131415161718;
    file.parent_file_name_buf = (100..118).collect();
    file.current_file_name_buf = (118..136).collect();
    file.root_id = 0xFFEEDDCCBBAA9988;
    file.root_file_fragment_buf = (200..208).collect();
    file.time_stamp_buf = 0xDEADBEEF;
    file.thumbnail = PPMThumbnail {
        tiles: (0..48u8).map(|t| PPMThumbnailTile { pixels: (0..32u8).map(|k| t ^ k).collect() }).collect(),
    };
    file.animation_data = PPMAnimationData {
        frame_offset_table_size: 12,
        animation_flags: PPMAnimationFlags { flags: 0x2 },
        animation_offsets: vec![0, first.len() as u32],
        animation_data: blob,
    };
    file.audio = PPMAudio {
        audio_header: PPMAudioHeader {
            sound_effect_flags: vec![1, 0],
            bgm_track_size: 0,
            se1_track_size: 0,
            se2_track_size: 0,
            se3_track_size: 0,
            frame_playback_speed: 3,
            frame_playback_speed_when_recording: 3,
        },
        background_track: None,
        sound_effect_1_track: Some(WavContainer::from_samples(vec![800; 64], 1, 32720, 16)),
        sound_effect_2_track: None,
        sound_effect_3_track: None,
        mixed_tracks: None,
    };
    file.signature = (0..128u8).collect();
    file
}

#[test]
fn new_container_has_the_format_version() {
    let file = PPMFile::new();
    assert_eq!(file.format_version, PPM_FORMAT_VERSION);
    assert_eq!(file.format_version, 0x24);
    assert_eq!((file.locked_buf, file.thumbnail_frame_index, file.frame_count), (0, 0, 0));
    assert_eq!((file.parent_id, file.current_id, file.root_id), (0, 0, 0));
    assert_eq!((file.time_stamp_buf, file.animation_data_size, file.sound_data_size), (0, 0, 0));
    assert_eq!(file.animation_data.frame_offset_table_size, 0);
    assert_eq!(file.animation_data.animation_flags.flags, 0);
    assert!(file.animation_data.animation_offsets.is_empty());
    assert!(file.thumbnail.tiles.is_empty());
    assert!(file.audio.audio_header.sound_effect_flags.is_empty());
    assert_eq!(file.audio.audio_header.frame_playback_speed, 0);
    assert!(file.audio.background_track.is_none() && file.audio.mixed_tracks.is_none());
    assert!(file.original_data.is_empty());
    assert_eq!(file.root_name_buf, vec![0u8; 22]);
    assert_eq!(file.current_file_name_buf, vec![0u8; 18]);
    assert_eq!(file.root_file_fragment_buf, vec![0u8; 8]);
    assert!(file.signature.is_empty());
    assert!(!file.is_serializable());
    assert_eq!(file.to_bytes().err(), Some(PpmError::Format));
}

#[test]
fn container_is_written_by_the_layout() {
    let file = sample_file();
    let bytes = file.to_bytes().unwrap();
    let blob_size = whole_frame().len() + difference_frame().len();
    let animation_size = 8 + 12 + blob_size;
    assert_eq!(&bytes[0..4], b"PARA");
    assert_eq!(&bytes[4..8], &(animation_size as u32).to_le_bytes());
    assert_eq!(&bytes[0xC..0xE], &[1, 0]);
    assert_eq!(&bytes[0xE..0x10], &[0x24, 0]);
    assert_eq!(&bytes[0x10..0x14], &[1, 0, 1, 0]);
    assert_eq!(bytes[0x14], 0);
    assert_eq!(bytes[0x29], 21);
    assert_eq!(&bytes[0x56..0x5E], &[8, 7, 6, 5, 4, 3, 2, 1]);
    assert_eq!(&bytes[0x9A..0x9E], &[0xEF, 0xBE, 0xAD, 0xDE]);
    assert_eq!(&bytes[0x9E..0xA0], &[0, 0]);
    assert_eq!(bytes[0xA0 + 32 * 5 + 3], 5 ^ 3);
    assert_eq!(&bytes[0x6A0..0x6A8], &[12, 0, 0, 0, 0, 0, 2, 0]);
    assert_eq!(&bytes[0x6A8..0x6AC], &[0, 0, 0, 0]);
    assert_eq!(&bytes[0x6AC..0x6B0], &[129, 0, 0, 0]);
    assert_eq!(&bytes[0x6B0..0x6B4], &[0, 0, 0, 0]);
    assert_eq!(bytes[0x6B4], 0x9D);
    let audio_start = 0x6A0 + animation_size;
    assert_eq!(&bytes[audio_start..audio_start + 2], &[1, 0]);
    // The sound header starts at the next multiple of four behind the two flag bytes.
    let padding = (4 - (audio_start + 2) % 4) % 4;
    let sound_header = audio_start + 2 + padding;
    assert_eq!(sound_header % 4, 0);
    // Effect 1: 64 samples become 16 at 8180, 8 bytes and the codec state.
    assert_eq!(&bytes[sound_header..sound_header + 16], &[0, 0, 0, 0, 12, 0, 0, 0, 0, 0, 0, 0, 0, 0, 0, 0]);
    assert_eq!(&bytes[8..12], &[12, 0, 0, 0]);
    assert_eq!(&bytes[sound_header + 16..sound_header + 18], &[3, 3]);
    let end = sound_header + 32 + 12;
    assert_eq!(bytes.len(), end + 0x90);
    assert_eq!(&bytes[end..end + 0x80], file.signature.as_slice());
    assert_eq!(&bytes[end + 0x80..], &[0u8; 16]);
    assert_eq!(file.get_body().unwrap(), bytes[..end].to_vec());
}

#[test]
fn structural_fields_survive_load_save_load() {
    let bytes = sample_file().to_bytes().unwrap();
    let first = PPMFile::from_bytes(&bytes).unwrap();
    let saved = first.to_bytes().unwrap();
    let second = PPMFile::from_bytes(&saved).unwrap();
    assert_eq!(second.animation_data_size, first.animation_data_size);
    assert_eq!(second.frame_count, first.frame_count);
    assert_eq!(second.format_version, first.format_version);
    assert_eq!(second.locked_buf, first.locked_buf);
    assert_eq!(second.thumbnail_frame_index, first.thumbnail_frame_index);
    assert_eq!(second.root_name_buf, first.root_name_buf);
    assert_eq!(second.parent_name_buf, first.parent_name_buf);
    assert_eq!(second.child_name_buf, first.child_name_buf);
    assert_eq!(second.parent_id, first.parent_id);
    assert_eq!(second.current_id, first.current_id);
    assert_eq!(second.parent_file_name_buf, first.parent_file_name_buf);
    assert_eq!(second.current_file_name_buf, first.current_file_name_buf);
    assert_eq!(second.root_id, first.root_id);
    assert_eq!(second.root_file_fragment_buf, first.root_file_fragment_buf);
    assert_eq!(second.time_stamp_buf, first.time_stamp_buf);
    for t in 0..48 {
        assert_eq!(second.thumbnail.tiles[t].pixels, first.thumbnail.tiles[t].pixels);
    }
    assert_eq!(second.animation_data.frame_offset_table_size, 12);
    assert_eq!(second.animation_data.animation_flags, first.animation_data.animation_flags);
    assert_eq!(second.animation_data.animation_offsets, first.animation_data.animation_offsets);
    assert_eq!(second.animation_data.animation_data, first.animation_data.animation_data);
    assert_eq!(second.signature, first.signature);
    assert_eq!(second.original_data, saved);
    let written = sample_file();
    assert_eq!(first.root_name_buf, written.root_name_buf);
    assert_eq!(first.root_id, written.root_id);
    assert_eq!(first.animation_data.animation_data, written.animation_data.animation_data);
    assert_eq!(first.thumbnail.tiles[47].pixels, written.thumbnail.tiles[47].pixels);
    assert_eq!(first.audio.audio_header.sound_effect_flags, vec![1, 0]);
    assert_eq!(first.sound_data_size, 12);
}

#[test]
fn frame_count_gives_one_frame_more() {
    let bytes = sample_file().to_bytes().unwrap();
    let file = PPMFile::from_bytes(&bytes).unwrap();
    assert_eq!(file.frame_count, 1);
    assert_eq!(file.animation_data.animation_offsets.len(), 2);
    let frames = file.animation_data.get_frames().unwrap();
    assert_eq!(frames.len(), 2);
    assert_eq!(frames[0].layer_1.get(0, 0), Ok(true));
    assert_eq!(frames[1].layer_1.get(2, 0), Ok(true));
    assert_eq!(frames[1].layer_1.get(1, 0), Ok(false));
    assert_eq!(file.audio.audio_header.sound_effect_flags.len(), 2);
}

#[test]
fn wrong_magic_is_a_format_error() {
    let mut bytes = sample_file().to_bytes().unwrap();
    bytes[3] = b'B';
    assert_eq!(PPMFile::from_bytes(&bytes).err(), Some(PpmError::Format));
    assert_eq!(PPMFile::from_bytes(&[]).err(), Some(PpmError::Format));
    assert_eq!(PPMFile::from_bytes(b"PARA").err(), Some(PpmError::Format));
}

#[test]
fn section_behind_the_end_is_a_format_error() {
    let bytes = sample_file().to_bytes().unwrap();
    for cut in [0x6A7usize, 0x6B0, 0x700, bytes.len() - 0x91, bytes.len() - 0x10, bytes.len() - 1] {
        assert_eq!(PPMFile::from_bytes(&bytes[..cut]).err(), Some(PpmError::Format));
    }
    let mut grown = bytes.clone();
    grown[4..8].copy_from_slice(&0x00FF_FFFFu32.to_le_bytes());
    assert_eq!(PPMFile::from_bytes(&grown).err(), Some(PpmError::Format));
    let mut small = bytes.clone();
    small[4..8].copy_from_slice(&19u32.to_le_bytes());
    assert_eq!(PPMFile::from_bytes(&small).err(), Some(PpmError::Format));
    let mut frames = bytes.clone();
    frames[0xC..0xE].copy_from_slice(&0xFFFFu16.to_le_bytes());
    assert_eq!(PPMFile::from_bytes(&frames).err(), Some(PpmError::Format));
    let mut speed = bytes.clone();
    let animation_size = 8 + 12 + whole_frame().len() + difference_frame().len();
    let sound_header = (0x6A0 + animation_size + 2 + 3) / 4 * 4;
    speed[sound_header + 16] = 9;
    assert_eq!(PPMFile::from_bytes(&speed).err(), Some(PpmError::Format));
    assert!(PPMFile::from_bytes(&bytes).is_ok());
}

#[test]
fn misshapen_container_is_not_written() {
    let mut file = sample_file();
    file.signature.pop();
    assert_eq!(file.to_bytes().err(), Some(PpmError::Format));
    assert!(file.get_body().is_ok());
    let mut file = sample_file();
    file.root_name_buf.push(0);
    assert_eq!(file.to_bytes().err(), Some(PpmError::Format));
    let mut file = sample_file();
    file.animation_data.animation_offsets.push(0);
    assert_eq!(file.get_body().err(), Some(PpmError::Format));
    let mut file = sample_file();
    file.animation_data.frame_offset_table_size = 7;
    assert_eq!(file.get_body().err(), Some(PpmError::Format));
    let mut file = sample_file();
    file.thumbnail.tiles[3].pixels.pop();
    assert_eq!(file.get_body().err(), Some(PpmError::Format));
    let mut file = sample_file();
    file.audio.audio_header.sound_effect_flags.push(0);
    assert_eq!(file.get_body().err(), Some(PpmError::Format));
}

#[test]
fn digest_is_sha1() {
    let digest = hash_data(b"abc");
    assert_eq!(
        digest,
        vec![
            0xa9, 0x99, 0x3e, 0x36, 0x47, 0x06, 0x81, 0x6a, 0xba, 0x3e, 0x25, 0x71, 0x78, 0x50,
            0xc2, 0x6c, 0x9c, 0xd0, 0xd8, 0x9d
        ]
    );
    assert_eq!(hash_data(b"").len(), 20);
    assert_ne!(hash_data(b"abd"), digest);
}

#[test]
fn signature_verifies_under_the_matching_key_only() {
    let key = test_key();
    let pem = test_public_pem();
    let body = sample_file().get_body().unwrap();
    let digest = hash_data(&body);
    let signature = sign(&digest, &key).unwrap();
    assert_eq!(signature.len(), 0x80);
    assert_eq!(verify(&digest, &signature, &pem), Ok(true));
    assert_eq!(verify(&digest, &signature, FLIPNOTE_STUDIO_PUBLIC_KEY), Ok(false));
    let mut forged = signature.clone();
    forged[17] ^= 0x01;
    assert_eq!(verify(&digest, &forged, &pem), Ok(false));
    assert_eq!(verify(&digest, &signature[..0x7F], &pem), Ok(false));
    assert_eq!(verify(&digest, &signature, "no key here"), Err(PpmError::Crypto));
    assert_eq!(sign(&digest[..19], &key).err(), Some(PpmError::Crypto));
}

#[test]
fn flipping_any_byte_of_the_body_breaks_the_signature() {
    let key = test_key();
    let pem = test_public_pem();
    let body = sample_file().get_body().unwrap();
    let signature = sign(&hash_data(&body), &key).unwrap();
    for at in [0usize, 4, 0x14, 0xA0, 0x6A0, 0x6B4, body.len() / 2, body.len() - 1] {
        let mut changed = body.clone();
        changed[at] ^= 0x40;
        assert_eq!(verify(&hash_data(&changed), &signature, &pem), Ok(false));
    }
    assert_eq!(verify(&hash_data(&body), &signature, &pem), Ok(true));
}

#[test]
fn vendor_key_parses_and_rejects_a_foreign_signature() {
    let mut file = sample_file();
    assert_eq!(file.verify_signature(), Ok(false));
    let bytes = file.to_bytes().unwrap();
    let read = PPMFile::from_bytes(&bytes).unwrap();
    assert_eq!(read.verify_read_signature(), Ok(false));
    assert_eq!(read.verify_signature(), Ok(false));
    assert_eq!(PPMFile::new().verify_read_signature(), Err(PpmError::Format));
    // A key that is not the vendor's signs, but the container does not verify.
    assert_eq!(file.sign(&test_key()), Err(PpmError::Crypto));
    assert_eq!(file.signature.len(), 0x80);
    assert_ne!(file.signature, sample_file().signature);
    assert_eq!(file.verify_signature(), Ok(false));
}

#[test]
fn signature_of_the_wrong_length_is_not_installed() {
    let mut file = sample_file();
    assert_eq!(file.install_signature(vec![0u8; 0x7F]), Err(PpmError::Crypto));
    assert_eq!(file.signature, sample_file().signature);
    assert_eq!(file.install_signature(vec![9u8; 0x80]), Err(PpmError::Crypto));
    assert_eq!(file.signature, vec![9u8; 0x80]);
    assert_eq!(accept_signature(None), Err(PpmError::Crypto));
    assert_eq!(accept_signature(Some(vec![1u8; 0x81])), Err(PpmError::Crypto));
    assert_eq!(accept_signature(Some(vec![1u8; 0x80])), Ok(vec![1u8; 0x80]));
    let mut unsaved = PPMFile::new();
    assert_eq!(unsaved.sign(&test_key()), Err(PpmError::Format));
}

#[test]
fn export_streams_hold_frames_and_timeline() {
    let bytes = sample_file().to_bytes().unwrap();
    let file = PPMFile::from_bytes(&bytes).unwrap();
    let streams = file.export_streams(32720).unwrap();
    assert_eq!(streams.video.len(), 2 * 256 * 192 * 4);
    assert_eq!(&streams.video[0..4], &[255, 42, 42, 255]);
    assert_eq!(streams.framerate, Ratio { numerator: 12, denominator: 2 });
    // One frame time at 6 frames per second: 32720 / 6, rounded up.
    assert_eq!(streams.audio.len(), 2 * 5454);
    let half = file.export_streams(16360).unwrap();
    assert_eq!(half.audio.len(), 2 * 2727);
    assert_eq!(file.export_streams(0).err(), Some(PpmError::Codec));
}

#[test]
fn default_container_differs_from_a_new_one_in_its_version_only() {
    let empty = PPMFile::default();
    assert_eq!(empty.format_version, 0);
    let mut versioned = empty.clone();
    versioned.format_version = PPM_FORMAT_VERSION;
    let new = PPMFile::new();
    assert_eq!(versioned.root_name_buf, new.root_name_buf);
    assert_eq!(versioned.parent_file_name_buf, new.parent_file_name_buf);
    assert_eq!(versioned.root_file_fragment_buf, new.root_file_fragment_buf);
    assert_eq!(versioned.format_version, new.format_version);
    assert_eq!(versioned.signature, new.signature);
    assert_eq!(versioned.locked_buf, new.locked_buf);
}

#[test]
fn clone_keeps_every_field() {
    let file = PPMFile::from_bytes(&sample_file().to_bytes().unwrap()).unwrap();
    let copy = file.clone();
    assert_eq!(copy.to_bytes(), file.to_bytes());
    assert_eq!(copy.original_data, file.original_data);
    assert_eq!(copy.sound_data_size, file.sound_data_size);
    assert_eq!(copy.animation_data_size, file.animation_data_size);
    assert_eq!(copy.signature, file.signature);
    assert_eq!(copy.time_stamp_buf, 0xDEADBEEF);
    assert_eq!(copy.thumbnail.tiles[7].pixels, file.thumbnail.tiles[7].pixels);
    assert_eq!(
        copy.audio.sound_effect_1_track.as_ref().unwrap().get_samples(),
        file.audio.sound_effect_1_track.as_ref().unwrap().get_samples()
    );
    assert_eq!(
        copy.audio.mixed_tracks.as_ref().unwrap().get_samples(),
        file.audio.mixed_tracks.as_ref().unwrap().get_samples()
    );
}

#[test]
fn signing_changes_the_signature_only() {
    let mut file = PPMFile::from_bytes(&sample_file().to_bytes().unwrap()).unwrap();
    file.sound_data_size = 77;
    let before = file.clone();
    assert_eq!(file.sign(&test_key()), Err(PpmError::Crypto));
    assert_ne!(file.signature, before.signature);
    assert_eq!(file.sound_data_size, 77);
    assert_eq!(file.get_body(), before.get_body());
    assert_eq!(file.original_data, before.original_data);
    assert_eq!(file.animation_data_size, before.animation_data_size);
    assert_eq!(file.install_signature(vec![3u8; 0x80]), Err(PpmError::Crypto));
    assert_eq!(file.sound_data_size, 77);
    assert_eq!(file.get_body(), before.get_body());
}

#[test]
fn failed_encoder_is_a_reported_failure() {
    assert_eq!(encoder_result(true), Ok(()));
    assert_eq!(encoder_result(false), Err(PpmError::ExternalProcess));
}

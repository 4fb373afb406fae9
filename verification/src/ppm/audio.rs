//! The audio tracks: the ADPCM codec, resampling and mixing.

pub mod adpcm_decoder;
pub mod adpcm_encoder;
pub mod adpcm_ima;
pub mod audio;
pub mod audio_header;
pub mod wav_container;

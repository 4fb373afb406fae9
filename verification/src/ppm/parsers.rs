//! Reading of the sections that need more than fixed offsets.

pub mod audio_parser;
pub mod ppm_parser;

//! Writing of the sections that need more than fixed offsets.

pub mod audio_writer;

//! The container and its sections.

pub mod audio;
pub mod constants;
pub mod file;
pub mod frames;
pub mod parsers;
pub mod thumbnail;
pub mod writers;

//! Reading, decoding and writing of the flipbook animation container.

pub mod error;
pub mod ppm;
pub mod utils;

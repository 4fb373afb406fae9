//! Helpers shared by the container's sections.

pub mod color_utils;
pub mod crypto;
pub mod cursor;
pub mod image_utils;

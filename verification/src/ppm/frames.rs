//! Animation frames: the header byte, the line codec and the two layers.

pub mod animation_data;
pub mod animation_flags;
pub mod frame;
pub mod frame_header;
pub mod layer;
pub mod line;

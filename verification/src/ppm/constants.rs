//! Fixed values of the format.

use vstd::prelude::*;

verus! {

/// The format version that every container carries.
pub const PPM_FORMAT_VERSION: u16 = 0x24;

/// Bytes in the thumbnail: 48 tiles of 32 bytes.
pub const PPM_THUMBNAIL_SIZE: usize = 1536;

/// The sixteen thumbnail colours, as `#RRGGBB`.
pub const PPM_THUMBNAIL_COLORS: [&'static str; 16] = [
    "#FFFFFF",
    "#525252",
    "#FFFFFF",
    "#9C9C9C",
    "#FF4844",
    "#C8514F",
    "#FFADAC",
    "#00FF00",
    "#4840FF",
    "#514FB8",
    "#ADABFF",
    "#00FF00",
    "#B657B7",
    "#00FF00",
    "#00FF00",
    "#00FF00",
];

/// The sixteen thumbnail colours, as red, green and blue.
pub const PPM_THUMBNAIL_PALETTE: [[u8; 3]; 16] = [
    [0xFF, 0xFF, 0xFF],
    [0x52, 0x52, 0x52],
    [0xFF, 0xFF, 0xFF],
    [0x9C, 0x9C, 0x9C],
    [0xFF, 0x48, 0x44],
    [0xC8, 0x51, 0x4F],
    [0xFF, 0xAD, 0xAC],
    [0x00, 0xFF, 0x00],
    [0x48, 0x40, 0xFF],
    [0x51, 0x4F, 0xB8],
    [0xAD, 0xAB, 0xFF],
    [0x00, 0xFF, 0x00],
    [0xB6, 0x57, 0xB7],
    [0x00, 0xFF, 0x00],
    [0x00, 0xFF, 0x00],
    [0x00, 0xFF, 0x00],
];

/// The four frame colours, as red, green and blue: white paper, black paper, red and blue.
pub const PPM_FRAME_PALETTE: [[u8; 3]; 4] = [
    [255, 255, 255],
    [14, 14, 14],
    [255, 42, 42],
    [10, 57, 255],
];

/// White paper, as red, green and blue.
pub const PPM_PAPER_WHITE: [u8; 3] = [255, 255, 255];

/// Black paper, as red, green and blue.
pub const PPM_PAPER_BLACK: [u8; 3] = [14, 14, 14];

/// The red pen, as red, green and blue.
pub const PPM_COLOR_RED: [u8; 3] = [255, 42, 42];

/// The blue pen, as red, green and blue.
pub const PPM_COLOR_BLUE: [u8; 3] = [10, 57, 255];

/// Twice the frames per second of each playback speed: 0.5, 0.5, 1, 2, 4, 6, 12, 20 and 30
/// frames per second.
pub const PPM_FRAMERATE_DOUBLED: [u32; 9] = [1, 1, 2, 4, 8, 12, 24, 40, 60];

/// Bytes of decoder state in front of each stored track.
pub const ADPCM_STATE_HEADER_SIZE: usize = 4;

/// The vendor's public key. It verifies signatures and cannot make them.
pub const FLIPNOTE_STUDIO_PUBLIC_KEY: &'static str = "-----BEGIN PUBLIC KEY-----
MIGfMA0GCSqGSIb3DQEBAQUAA4GNADCBiQKBgQDCPLwTL6oSflv+gjywi/sM0TUB
90xqOvuCpjduETjPoN2FwMebxNjdKIqHUyDu4AvrQ6BDJc6gKUbZ1E27BGZoCPH4
9zQRb+zAM6M9EjHwQ6BABr0u2TcF7xGg2uQ9MBWz9AfbVQ91NjfrNWo0f7UPmffv
1VvixmTk1BCtavZxBwIDAQAB
-----END PUBLIC KEY-----";

/// Samples per second of the device's recordings.
pub const PPM_AUDIO_SAMPLE_RATE: i32 = 8180;

/// Samples per second of the decoded tracks and of the mixed timeline.
pub const PPM_AUDIO_PLAYBACK_SAMPLE_RATE: i32 = 32720;

/// Where the header stores the size of the sound data.
pub const PPM_OFFSET_AUDIO_DATA_SIZE: u64 = 0x8;

/// By how much each code moves the step index.
pub const ADPCM_INDEX_TABLE: [i32; 16] = [-1, -1, -1, -1, 2, 4, 6, 8, -1, -1, -1, -1, 2, 4, 6, 8];

/// The quantizer step at each step index.
pub const ADPCM_STEP_TABLE: [i32; 89] = [
    7, 8, 9, 10, 11, 12, 13, 14, 16, 17,
    19, 21, 23, 25, 28, 31, 34, 37, 41, 45,
    50, 55, 60, 66, 73, 80, 88, 97, 107, 118,
    130, 143, 157, 173, 190, 209, 230, 253, 279, 307,
    337, 371, 408, 449, 494, 544, 598, 658, 724, 796,
    876, 963, 1060, 1166, 1282, 1411, 1552, 1707, 1878, 2066,
    2272, 2499, 2749, 3024, 3327, 3660, 4026, 4428, 4871, 5358,
    5894, 6484, 7132, 7845, 8630, 9493, 10442, 11487, 12635, 13899,
    15289, 16818, 18500, 20350, 22385, 24623, 27086, 29794, 32767,
];

} // verus!

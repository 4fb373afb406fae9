//! The container: the file header, the metadata, the thumbnail, the animation section, the
//! audio section and the signature.

use vstd::prelude::*;
use crate::error::PpmError;
use crate::ppm::audio::audio::{AudioView, PPMAudio, spec_empty_audio, spec_mixed_or_empty};
use crate::ppm::audio::audio_header::{Ratio, spec_framerate_doubled};
use crate::ppm::audio::wav_container::{spec_pcm_bytes, spec_wav_resample};
use crate::ppm::constants::{FLIPNOTE_STUDIO_PUBLIC_KEY, PPM_FORMAT_VERSION};
use crate::ppm::frames::animation_data::{
    PPMAnimationData, lemma_decode_frames_len, spec_decode_frames, spec_video_bytes,
};
use crate::ppm::frames::animation_flags::PPMAnimationFlags;
use crate::ppm::parsers::audio_parser::{
    inner_reader, lemma_read_audio_facts, lemma_read_audio_position, spec_read_audio,
};
use crate::ppm::parsers::ppm_parser::ppm_parser;
use crate::ppm::thumbnail::{PPMThumbnail, PPMThumbnailTile, TILE_BYTES, TILE_COUNT};
use crate::ppm::writers::audio_writer::{
    inner_writer, lemma_audio_reads_back, lemma_rewritten_tracks_read, lemma_written_section,
    rewritten_tracks_read, spec_write_audio,
};
use crate::utils::crypto::{
    hash_data, sign, spec_pem_holds_key, spec_rsa_valid, spec_rsa_verify, spec_sha1, verify,
    SIGNATURE_SIZE,
};
use crate::utils::cursor::{
    ByteCursor, lemma_u16_le_roundtrip, lemma_u32_le_roundtrip, lemma_u64_le_roundtrip, push_bytes,
    push_zeros, spec_u16_le, spec_u16_le_bytes, spec_u32_le, spec_u32_le_bytes, spec_u64_le,
    spec_u64_le_bytes,
};

verus! {

/// Where the thumbnail starts.
pub const THUMBNAIL_START: usize = 0xA0;

/// Where the animation section starts.
pub const ANIMATION_START: usize = 0x6A0;

/// Where the table of frame offsets starts.
pub const OFFSET_TABLE_START: usize = 0x6A8;

/// Bytes of padding behind the signature.
pub const SIGNATURE_PADDING: usize = 0x10;

/// Bytes behind the signed body: the signature and its padding.
pub const TRAILER_SIZE: usize = 0x90;

/// Byte `i` of the magic tag `PARA`.
pub open spec fn spec_magic(i: int) -> u8 {
    if i == 0 {
        0x50
    } else if i == 1 {
        0x41
    } else if i == 2 {
        0x52
    } else {
        0x41
    }
}

/// The fields of a container that do not belong to the audio section or the signature.
pub struct FileHead {
    pub animation_data_size: u32,
    pub frame_count: u16,
    pub format_version: u16,
    pub locked_buf: u16,
    pub thumbnail_frame_index: u16,
    pub root_name_buf: Seq<u8>,
    pub parent_name_buf: Seq<u8>,
    pub child_name_buf: Seq<u8>,
    pub parent_id: u64,
    pub current_id: u64,
    pub parent_file_name_buf: Seq<u8>,
    pub current_file_name_buf: Seq<u8>,
    pub root_id: u64,
    pub root_file_fragment_buf: Seq<u8>,
    pub time_stamp_buf: u32,
    pub thumbnail: Seq<Seq<u8>>,
    pub frame_offset_table_size: u16,
    pub animation_flags: u16,
    pub animation_offsets: Seq<u32>,
    pub animation_data: Seq<u8>,
}

/// The fields that the bytes of a file give, by their fixed places: the file header at 0,
/// the metadata at 0x10, the thumbnail at 0xA0 and the animation section at 0x6A0. The
/// animation section is as long as the header says and holds eight bytes, the table of
/// offsets with one offset for each frame, and the stored frames. `None` where the magic tag
/// is wrong or a section ends behind the end of the bytes.
pub open spec fn spec_parse_head(bytes: Seq<u8>) -> Option<FileHead> {
    let size = spec_u32_le(bytes, 4);
    let count = spec_u16_le(bytes, 0xC) + 1;
    let table = spec_u16_le(bytes, 0x6A0);
    if bytes.len() >= OFFSET_TABLE_START && bytes[0] == spec_magic(0) && bytes[1] == spec_magic(1)
        && bytes[2] == spec_magic(2) && bytes[3] == spec_magic(3) && OFFSET_TABLE_START + 4
        * count <= bytes.len() && 8 + table <= size && ANIMATION_START + size <= bytes.len() {
        Some(
            FileHead {
                animation_data_size: size as u32,
                frame_count: spec_u16_le(bytes, 0xC) as u16,
                format_version: spec_u16_le(bytes, 0xE) as u16,
                locked_buf: spec_u16_le(bytes, 0x10) as u16,
                thumbnail_frame_index: spec_u16_le(bytes, 0x12) as u16,
                root_name_buf: bytes.subrange(0x14, 0x2A),
                parent_name_buf: bytes.subrange(0x2A, 0x40),
                child_name_buf: bytes.subrange(0x40, 0x56),
                parent_id: spec_u64_le(bytes, 0x56) as u64,
                current_id: spec_u64_le(bytes, 0x5E) as u64,
                parent_file_name_buf: bytes.subrange(0x66, 0x78),
                current_file_name_buf: bytes.subrange(0x78, 0x8A),
                root_id: spec_u64_le(bytes, 0x8A) as u64,
                root_file_fragment_buf: bytes.subrange(0x92, 0x9A),
                time_stamp_buf: spec_u32_le(bytes, 0x9A) as u32,
                thumbnail: Seq::new(
                    TILE_COUNT as nat,
                    |t: int|
                        bytes.subrange(
                            THUMBNAIL_START + TILE_BYTES * t,
                            THUMBNAIL_START + TILE_BYTES * t + TILE_BYTES,
                        ),
                ),
                frame_offset_table_size: table as u16,
                animation_flags: spec_u16_le(bytes, 0x6A6) as u16,
                animation_offsets: Seq::new(
                    count as nat,
                    |k: int| spec_u32_le(bytes, OFFSET_TABLE_START + 4 * k) as u32,
                ),
                animation_data: bytes.subrange(OFFSET_TABLE_START + table, ANIMATION_START + size),
            },
        )
    } else {
        None
    }
}

/// A decoded container as a whole.
pub struct FileView {
    pub head: FileHead,
    pub sound_data_size: u32,
    pub audio: AudioView,
    pub signature: Seq<u8>,
    pub original_data: Seq<u8>,
}

/// The position in the file by which the padding in front of the sound header is found:
/// behind the flag bytes of the audio section.
pub open spec fn spec_sound_header_start(head: FileHead) -> int {
    ANIMATION_START + head.animation_data_size + head.frame_count + 1
}

/// The container that the bytes of a file give: the fields at their fixed places, the audio
/// section behind the animation section, then the signature of 0x80 bytes and 0x10 bytes of
/// padding. The first failure is the result.
pub open spec fn spec_from_bytes(bytes: Seq<u8>) -> Result<FileView, PpmError> {
    match spec_parse_head(bytes) {
        None => Err(PpmError::Format),
        Some(head) => match spec_read_audio(
            bytes,
            ANIMATION_START + head.animation_data_size,
            head.frame_count + 1,
            spec_sound_header_start(head),
        ) {
            Err(e) => Err(e),
            Ok((audio, next)) => if next + TRAILER_SIZE <= bytes.len() {
                Ok(
                    FileView {
                        head,
                        sound_data_size: spec_u32_le(bytes, 8) as u32,
                        audio,
                        signature: bytes.subrange(next, next + SIGNATURE_SIZE),
                        original_data: bytes,
                    },
                )
            } else {
                Err(PpmError::Format)
            },
        },
    }
}

/// A container.
#[derive(Debug)]
pub struct PPMFile {
    /// The bytes that the container was read from.
    pub original_data: Vec<u8>,
    pub animation_data_size: u32,
    pub sound_data_size: u32,
    /// One less than the number of frames.
    pub frame_count: u16,
    pub format_version: u16,
    pub locked_buf: u16,
    pub thumbnail_frame_index: u16,
    pub root_name_buf: Vec<u8>,
    pub parent_name_buf: Vec<u8>,
    pub child_name_buf: Vec<u8>,
    pub parent_id: u64,
    pub current_id: u64,
    pub parent_file_name_buf: Vec<u8>,
    pub current_file_name_buf: Vec<u8>,
    pub root_id: u64,
    pub root_file_fragment_buf: Vec<u8>,
    pub time_stamp_buf: u32,
    pub thumbnail: PPMThumbnail,
    pub animation_data: PPMAnimationData,
    pub audio: PPMAudio,
    pub signature: Vec<u8>,
}

impl View for PPMFile {
    type V = FileView;

    open spec fn view(&self) -> FileView {
        FileView {
            head: self.head(),
            sound_data_size: self.sound_data_size,
            audio: self.audio@,
            signature: self.signature@,
            original_data: self.original_data@,
        }
    }
}

impl PPMFile {
    /// The fields that do not belong to the audio section or the signature.
    pub open spec fn head(&self) -> FileHead {
        FileHead {
            animation_data_size: self.animation_data_size,
            frame_count: self.frame_count,
            format_version: self.format_version,
            locked_buf: self.locked_buf,
            thumbnail_frame_index: self.thumbnail_frame_index,
            root_name_buf: self.root_name_buf@,
            parent_name_buf: self.parent_name_buf@,
            child_name_buf: self.child_name_buf@,
            parent_id: self.parent_id,
            current_id: self.current_id,
            parent_file_name_buf: self.parent_file_name_buf@,
            current_file_name_buf: self.current_file_name_buf@,
            root_id: self.root_id,
            root_file_fragment_buf: self.root_file_fragment_buf@,
            time_stamp_buf: self.time_stamp_buf,
            thumbnail: self.thumbnail@,
            frame_offset_table_size: self.animation_data.frame_offset_table_size,
            animation_flags: self.animation_data.animation_flags.flags,
            animation_offsets: self.animation_data.animation_offsets@,
            animation_data: self.animation_data.animation_data@,
        }
    }

    /// An empty container of the current format version. Its name fields hold zeros and
    /// every number is 0; it has no thumbnail, frames, audio or signature yet.
    pub fn new() -> (file: Self)
        ensures
            file@ == spec_empty_file(PPM_FORMAT_VERSION),
    {
        let mut file = PPMFile::default();
        file.format_version = PPM_FORMAT_VERSION;
        file
    }
}

/// The container that holds nothing: the given format version, name fields of zeros at
/// their fixed lengths, every other number 0, and no thumbnail, frames, audio, signature or
/// read bytes.
pub open spec fn spec_empty_file(format_version: u16) -> FileView {
    FileView {
        head: FileHead {
            animation_data_size: 0,
            frame_count: 0,
            format_version,
            locked_buf: 0,
            thumbnail_frame_index: 0,
            root_name_buf: Seq::new(22, |i: int| 0u8),
            parent_name_buf: Seq::new(22, |i: int| 0u8),
            child_name_buf: Seq::new(22, |i: int| 0u8),
            parent_id: 0,
            current_id: 0,
            parent_file_name_buf: Seq::new(18, |i: int| 0u8),
            current_file_name_buf: Seq::new(18, |i: int| 0u8),
            root_id: 0,
            root_file_fragment_buf: Seq::new(8, |i: int| 0u8),
            time_stamp_buf: 0,
            thumbnail: Seq::empty(),
            frame_offset_table_size: 0,
            animation_flags: 0,
            animation_offsets: Seq::empty(),
            animation_data: Seq::empty(),
        },
        sound_data_size: 0,
        audio: spec_empty_audio(),
        signature: Seq::empty(),
        original_data: Seq::empty(),
    }
}

impl Default for PPMFile {
    fn default() -> (file: Self)
        ensures
            file@ == spec_empty_file(0),
    {
        let mut root_name_buf: Vec<u8> = Vec::new();
        push_zeros(&mut root_name_buf, 22);
        let mut parent_name_buf: Vec<u8> = Vec::new();
        push_zeros(&mut parent_name_buf, 22);
        let mut child_name_buf: Vec<u8> = Vec::new();
        push_zeros(&mut child_name_buf, 22);
        let mut parent_file_name_buf: Vec<u8> = Vec::new();
        push_zeros(&mut parent_file_name_buf, 18);
        let mut current_file_name_buf: Vec<u8> = Vec::new();
        push_zeros(&mut current_file_name_buf, 18);
        let mut root_file_fragment_buf: Vec<u8> = Vec::new();
        push_zeros(&mut root_file_fragment_buf, 8);
        let file = PPMFile {
            original_data: Vec::new(),
            animation_data_size: 0,
            sound_data_size: 0,
            frame_count: 0,
            format_version: 0,
            locked_buf: 0,
            thumbnail_frame_index: 0,
            root_name_buf,
            parent_name_buf,
            child_name_buf,
            parent_id: 0,
            current_id: 0,
            parent_file_name_buf,
            current_file_name_buf,
            root_id: 0,
            root_file_fragment_buf,
            time_stamp_buf: 0,
            thumbnail: PPMThumbnail::default(),
            animation_data: PPMAnimationData::default(),
            audio: PPMAudio::default(),
            signature: Vec::new(),
        };
        assert(file@.head.root_name_buf =~= Seq::new(22, |i: int| 0u8));
        assert(file@.head.parent_name_buf =~= Seq::new(22, |i: int| 0u8));
        assert(file@.head.child_name_buf =~= Seq::new(22, |i: int| 0u8));
        assert(file@.head.parent_file_name_buf =~= Seq::new(18, |i: int| 0u8));
        assert(file@.head.current_file_name_buf =~= Seq::new(18, |i: int| 0u8));
        assert(file@.head.root_file_fragment_buf =~= Seq::new(8, |i: int| 0u8));
        assert(file@.head.thumbnail =~= Seq::<Seq<u8>>::empty());
        assert(file@.head.animation_offsets =~= Seq::<u32>::empty());
        assert(file@.head.animation_data =~= Seq::<u8>::empty());
        assert(file@.signature =~= Seq::<u8>::empty());
        assert(file@.original_data =~= Seq::<u8>::empty());
        file
    }
}

impl Clone for PPMFile {
    fn clone(&self) -> (copy: Self)
        ensures
            copy@ == self@,
    {
        PPMFile {
            original_data: self.original_data.clone(),
            animation_data_size: self.animation_data_size,
            sound_data_size: self.sound_data_size,
            frame_count: self.frame_count,
            format_version: self.format_version,
            locked_buf: self.locked_buf,
            thumbnail_frame_index: self.thumbnail_frame_index,
            root_name_buf: self.root_name_buf.clone(),
            parent_name_buf: self.parent_name_buf.clone(),
            child_name_buf: self.child_name_buf.clone(),
            parent_id: self.parent_id,
            current_id: self.current_id,
            parent_file_name_buf: self.parent_file_name_buf.clone(),
            current_file_name_buf: self.current_file_name_buf.clone(),
            root_id: self.root_id,
            root_file_fragment_buf: self.root_file_fragment_buf.clone(),
            time_stamp_buf: self.time_stamp_buf,
            thumbnail: self.thumbnail.clone(),
            animation_data: self.animation_data.clone(),
            audio: self.audio.clone(),
            signature: self.signature.clone(),
        }
    }
}

/// Reads the 48 tiles of the thumbnail.
#[verifier::rlimit(50)]
fn read_tiles(cursor: &mut ByteCursor) -> (tiles: Vec<PPMThumbnailTile>)
    requires
        old(cursor).remaining() >= TILE_COUNT * TILE_BYTES,
    ensures
        final(cursor).data@ == old(cursor).data@,
        final(cursor).pos == old(cursor).pos + TILE_COUNT * TILE_BYTES,
        (PPMThumbnail { tiles })@ == Seq::new(
            TILE_COUNT as nat,
            |t: int|
                old(cursor).data@.subrange(
                    old(cursor).pos + TILE_BYTES * t,
                    old(cursor).pos + TILE_BYTES * t + TILE_BYTES,
                ),
        ),
{
    let ghost bytes = cursor.data@;
    let ghost start = cursor.pos as int;
    let mut tiles: Vec<PPMThumbnailTile> = Vec::with_capacity(48);
    let mut t: usize = 0;
    while t < 48
        invariant
            t <= 48,
            cursor.data@ == bytes,
            bytes == old(cursor).data@,
            start == old(cursor).pos,
            cursor.pos == start + 32 * t,
            start + 1536 <= bytes.len(),
            tiles@.len() == t,
            forall|k: int|
                0 <= k < t ==> (#[trigger] tiles@[k]).pixels@ == bytes.subrange(
                    start + 32 * k,
                    start + 32 * k + 32,
                ),
        decreases 48 - t,
    {
        let pixels = match cursor.read_bytes(32) {
            Ok(p) => p,
            Err(e) => Vec::new(),
        };
        tiles.push(PPMThumbnailTile { pixels });
        t = t + 1;
    }
    assert((PPMThumbnail { tiles })@ =~= Seq::new(
        TILE_COUNT as nat,
        |t: int| bytes.subrange(start + TILE_BYTES * t, start + TILE_BYTES * t + TILE_BYTES),
    ));
    tiles
}

/// Reads `count` frame offsets.
#[verifier::rlimit(50)]
fn read_offsets(cursor: &mut ByteCursor, count: usize) -> (offsets: Vec<u32>)
    requires
        old(cursor).remaining() >= 4 * count,
    ensures
        final(cursor).data@ == old(cursor).data@,
        final(cursor).pos == old(cursor).pos + 4 * count,
        offsets@ == Seq::new(
            count as nat,
            |k: int| spec_u32_le(old(cursor).data@, old(cursor).pos + 4 * k) as u32,
        ),
{
    let ghost bytes = cursor.data@;
    let ghost start = cursor.pos as int;
    let mut offsets: Vec<u32> = Vec::with_capacity(count);
    let mut k: usize = 0;
    while k < count
        invariant
            k <= count,
            cursor.data@ == bytes,
            bytes == old(cursor).data@,
            start == old(cursor).pos,
            cursor.pos == start + 4 * k,
            start + 4 * count <= bytes.len(),
            offsets@.len() == k,
            forall|j: int|
                0 <= j < k ==> #[trigger] offsets@[j] == spec_u32_le(bytes, start + 4 * j) as u32,
        decreases count - k,
    {
        let offset = match cursor.read_u32_le() {
            Ok(v) => v,
            Err(e) => 0,
        };
        offsets.push(offset);
        k = k + 1;
    }
    assert(offsets@ =~= Seq::new(
        count as nat,
        |k: int| spec_u32_le(bytes, start + 4 * k) as u32,
    ));
    offsets
}

/// Reads the fields at their fixed places: everything but the audio section and the
/// signature, which the result holds empty.
#[verifier::rlimit(50)]
fn read_head(bytes: &[u8]) -> (r: Result<PPMFile, PpmError>)
    ensures
        match spec_parse_head(bytes@) {
            Some(head) => r is Ok && r->Ok_0.head() == head && r->Ok_0.sound_data_size
                == spec_u32_le(bytes@, 8) as u32,
            None => r == Err::<PPMFile, PpmError>(PpmError::Format),
        },
{
    if bytes.len() < OFFSET_TABLE_START {
        return Err(PpmError::Format);
    }
    if bytes[0] != 0x50 || bytes[1] != 0x41 || bytes[2] != 0x52 || bytes[3] != 0x41 {
        return Err(PpmError::Format);
    }
    let mut cursor = ByteCursor::new(bytes);
    cursor.seek(4);
    let animation_data_size = match cursor.read_u32_le() {
        Ok(v) => v,
        Err(e) => {
            return Err(PpmError::Format);
        },
    };
    let sound_data_size = match cursor.read_u32_le() {
        Ok(v) => v,
        Err(e) => {
            return Err(PpmError::Format);
        },
    };
    let frame_count = match cursor.read_u16_le() {
        Ok(v) => v,
        Err(e) => {
            return Err(PpmError::Format);
        },
    };
    let format_version = match cursor.read_u16_le() {
        Ok(v) => v,
        Err(e) => {
            return Err(PpmError::Format);
        },
    };
    cursor.seek(ANIMATION_START);
    let frame_offset_table_size = match cursor.read_u16_le() {
        Ok(v) => v,
        Err(e) => {
            return Err(PpmError::Format);
        },
    };
    cursor.seek(0x6A6);
    let flags = match cursor.read_u16_le() {
        Ok(v) => v,
        Err(e) => {
            return Err(PpmError::Format);
        },
    };
    let count: usize = frame_count as usize + 1;
    if bytes.len() - OFFSET_TABLE_START < 4 * count {
        return Err(PpmError::Format);
    }
    if (animation_data_size as u64) < 8 + frame_offset_table_size as u64 {
        return Err(PpmError::Format);
    }
    if ((bytes.len() - ANIMATION_START) as u64) < animation_data_size as u64 {
        return Err(PpmError::Format);
    }
    let animation_offsets = read_offsets(&mut cursor, count);
    cursor.seek(OFFSET_TABLE_START + frame_offset_table_size as usize);
    let blob_size: usize = animation_data_size as usize - 8 - frame_offset_table_size as usize;
    let animation_data = match cursor.read_bytes(blob_size) {
        Ok(v) => v,
        Err(e) => {
            return Err(PpmError::Format);
        },
    };
    let mut file = read_metadata(bytes);
    file.animation_data_size = animation_data_size;
    file.sound_data_size = sound_data_size;
    file.frame_count = frame_count;
    file.format_version = format_version;
    file.animation_data = PPMAnimationData {
        frame_offset_table_size,
        animation_flags: PPMAnimationFlags { flags },
        animation_offsets,
        animation_data,
    };
    Ok(file)
}

/// Reads the metadata and the thumbnail; the other fields of the result are empty.
#[verifier::rlimit(50)]
fn read_metadata(bytes: &[u8]) -> (file: PPMFile)
    requires
        bytes@.len() >= ANIMATION_START,
    ensures
        file.locked_buf == spec_u16_le(bytes@, 0x10) as u16,
        file.thumbnail_frame_index == spec_u16_le(bytes@, 0x12) as u16,
        file.root_name_buf@ == bytes@.subrange(0x14, 0x2A),
        file.parent_name_buf@ == bytes@.subrange(0x2A, 0x40),
        file.child_name_buf@ == bytes@.subrange(0x40, 0x56),
        file.parent_id == spec_u64_le(bytes@, 0x56) as u64,
        file.current_id == spec_u64_le(bytes@, 0x5E) as u64,
        file.parent_file_name_buf@ == bytes@.subrange(0x66, 0x78),
        file.current_file_name_buf@ == bytes@.subrange(0x78, 0x8A),
        file.root_id == spec_u64_le(bytes@, 0x8A) as u64,
        file.root_file_fragment_buf@ == bytes@.subrange(0x92, 0x9A),
        file.time_stamp_buf == spec_u32_le(bytes@, 0x9A) as u32,
        file.thumbnail@ == Seq::new(
            TILE_COUNT as nat,
            |t: int|
                bytes@.subrange(
                    THUMBNAIL_START + TILE_BYTES * t,
                    THUMBNAIL_START + TILE_BYTES * t + TILE_BYTES,
                ),
        ),
{
    let mut file = PPMFile::new();
    let mut cursor = ByteCursor::new(bytes);
    cursor.seek(0x10);
    file.locked_buf = match cursor.read_u16_le() {
        Ok(v) => v,
        Err(e) => 0,
    };
    file.thumbnail_frame_index = match cursor.read_u16_le() {
        Ok(v) => v,
        Err(e) => 0,
    };
    file.root_name_buf = match cursor.read_bytes(22) {
        Ok(v) => v,
        Err(e) => Vec::new(),
    };
    file.parent_name_buf = match cursor.read_bytes(22) {
        Ok(v) => v,
        Err(e) => Vec::new(),
    };
    file.child_name_buf = match cursor.read_bytes(22) {
        Ok(v) => v,
        Err(e) => Vec::new(),
    };
    file.parent_id = match cursor.read_u64_le() {
        Ok(v) => v,
        Err(e) => 0,
    };
    file.current_id = match cursor.read_u64_le() {
        Ok(v) => v,
        Err(e) => 0,
    };
    file.parent_file_name_buf = match cursor.read_bytes(18) {
        Ok(v) => v,
        Err(e) => Vec::new(),
    };
    file.current_file_name_buf = match cursor.read_bytes(18) {
        Ok(v) => v,
        Err(e) => Vec::new(),
    };
    file.root_id = match cursor.read_u64_le() {
        Ok(v) => v,
        Err(e) => 0,
    };
    file.root_file_fragment_buf = match cursor.read_bytes(8) {
        Ok(v) => v,
        Err(e) => Vec::new(),
    };
    file.time_stamp_buf = match cursor.read_u32_le() {
        Ok(v) => v,
        Err(e) => 0,
    };
    cursor.seek(THUMBNAIL_START);
    file.thumbnail = PPMThumbnail { tiles: read_tiles(&mut cursor) };
    file
}

impl PPMFile {
    /// Reads a container from the bytes of a file.
    #[verifier::rlimit(50)]
    pub fn from_bytes(bytes: &[u8]) -> (r: Result<Self, PpmError>)
        ensures
            match spec_from_bytes(bytes@) {
                Ok(file) => r is Ok && r->Ok_0@ == file,
                Err(e) => r is Err && r->Err_0 == e,
            },
            r is Ok ==> r->Ok_0.animation_data.animation_offsets@.len() == r->Ok_0.frame_count + 1,
    {
        let mut file = match read_head(bytes) {
            Ok(f) => f,
            Err(e) => {
                return Err(e);
            },
        };
        let ghost head = file.head();
        assert(bytes.len() == bytes@.len());
        let start: usize = ANIMATION_START + file.animation_data_size as usize;
        let count: u32 = file.frame_count as u32 + 1;
        let sound_header_start: u64 = start as u64 + count as u64;
        let mut cursor = ByteCursor::new(bytes);
        cursor.seek(start);
        let audio = match inner_reader(&mut cursor, count, sound_header_start) {
            Ok(a) => a,
            Err(e) => {
                return Err(e);
            },
        };
        if cursor.available() < TRAILER_SIZE {
            return Err(PpmError::Format);
        }
        let signature = match cursor.read_bytes(SIGNATURE_SIZE) {
            Ok(s) => s,
            Err(e) => {
                return Err(PpmError::Format);
            },
        };
        let original_data = ppm_parser(&mut cursor);
        file.audio = audio;
        file.signature = signature;
        file.original_data = original_data;
        assert(file.head() == head);
        Ok(file)
    }
}

/// The size of the animation section as it is stored: eight bytes, the table of offsets and
/// the stored frames.
pub open spec fn spec_stored_size(head: FileHead) -> int {
    8 + head.frame_offset_table_size + head.animation_data.len()
}

/// Whether the fields can be stored: the name fields and the thumbnail have their fixed
/// sizes, there is one offset for each frame, the table has room for the offsets, and the
/// size of the animation section fits in 32 bits.
pub open spec fn head_serializable(head: FileHead) -> bool {
    &&& head.root_name_buf.len() == 22
    &&& head.parent_name_buf.len() == 22
    &&& head.child_name_buf.len() == 22
    &&& head.parent_file_name_buf.len() == 18
    &&& head.current_file_name_buf.len() == 18
    &&& head.root_file_fragment_buf.len() == 8
    &&& head.thumbnail.len() == TILE_COUNT
    &&& forall|t: int| 0 <= t < TILE_COUNT ==> (#[trigger] head.thumbnail[t]).len() == TILE_BYTES
    &&& head.animation_offsets.len() == head.frame_count + 1
    &&& 4 * head.animation_offsets.len() <= head.frame_offset_table_size
    &&& spec_stored_size(head) <= u32::MAX
}

/// Byte `i` of the stored fields. The size of the animation section is stored as it is
/// found from the table and the frames; `sound_size` is the size of the sound data.
pub open spec fn spec_head_byte(head: FileHead, sound_size: u32, i: int) -> u8 {
    if i < 4 {
        spec_magic(i)
    } else if i < 8 {
        spec_u32_le_bytes(spec_stored_size(head))[i - 4]
    } else if i < 0xC {
        spec_u32_le_bytes(sound_size as int)[i - 8]
    } else if i < 0xE {
        spec_u16_le_bytes(head.frame_count as int)[i - 0xC]
    } else if i < 0x10 {
        spec_u16_le_bytes(head.format_version as int)[i - 0xE]
    } else if i < 0x12 {
        spec_u16_le_bytes(head.locked_buf as int)[i - 0x10]
    } else if i < 0x14 {
        spec_u16_le_bytes(head.thumbnail_frame_index as int)[i - 0x12]
    } else if i < 0x2A {
        head.root_name_buf[i - 0x14]
    } else if i < 0x40 {
        head.parent_name_buf[i - 0x2A]
    } else if i < 0x56 {
        head.child_name_buf[i - 0x40]
    } else if i < 0x5E {
        spec_u64_le_bytes(head.parent_id as int)[i - 0x56]
    } else if i < 0x66 {
        spec_u64_le_bytes(head.current_id as int)[i - 0x5E]
    } else if i < 0x78 {
        head.parent_file_name_buf[i - 0x66]
    } else if i < 0x8A {
        head.current_file_name_buf[i - 0x78]
    } else if i < 0x92 {
        spec_u64_le_bytes(head.root_id as int)[i - 0x8A]
    } else if i < 0x9A {
        head.root_file_fragment_buf[i - 0x92]
    } else if i < 0x9E {
        spec_u32_le_bytes(head.time_stamp_buf as int)[i - 0x9A]
    } else if i < 0xA0 {
        0
    } else if i < 0x6A0 {
        head.thumbnail[(i - 0xA0) / 32][(i - 0xA0) % 32]
    } else if i < 0x6A2 {
        spec_u16_le_bytes(head.frame_offset_table_size as int)[i - 0x6A0]
    } else if i < 0x6A6 {
        0
    } else if i < 0x6A8 {
        spec_u16_le_bytes(head.animation_flags as int)[i - 0x6A6]
    } else if i < 0x6A8 + 4 * head.animation_offsets.len() {
        spec_u32_le_bytes(head.animation_offsets[(i - 0x6A8) / 4] as int)[(i - 0x6A8) % 4]
    } else if i < 0x6A8 + head.frame_offset_table_size {
        0
    } else {
        head.animation_data[i - 0x6A8 - head.frame_offset_table_size]
    }
}

/// The stored fields: the bytes of a file up to the audio section.
pub open spec fn spec_head_bytes(head: FileHead, sound_size: u32) -> Seq<u8> {
    Seq::new(
        (ANIMATION_START + spec_stored_size(head)) as nat,
        |i: int| spec_head_byte(head, sound_size, i),
    )
}

/// The fields as they are read back: the size of the animation section is the stored one.
pub open spec fn spec_stored_head(head: FileHead) -> FileHead {
    FileHead { animation_data_size: spec_stored_size(head) as u32, ..head }
}

/// Byte `k` of a 16-bit value in little-endian order.
fn le_byte_16(v: u16, k: usize) -> (b: u8)
    requires
        k < 2,
    ensures
        b == spec_u16_le_bytes(v as int)[k as int],
{
    if k == 0 {
        (v % 256) as u8
    } else {
        (v / 256) as u8
    }
}

/// Byte `k` of a 32-bit value in little-endian order.
fn le_byte_32(v: u32, k: usize) -> (b: u8)
    requires
        k < 4,
    ensures
        b == spec_u32_le_bytes(v as int)[k as int],
{
    if k == 0 {
        (v % 256) as u8
    } else if k == 1 {
        (v / 256 % 256) as u8
    } else if k == 2 {
        (v / 65536 % 256) as u8
    } else {
        (v / 16777216) as u8
    }
}

/// Byte `k` of a 64-bit value in little-endian order.
fn le_byte_64(v: u64, k: usize) -> (b: u8)
    requires
        k < 8,
    ensures
        b == spec_u64_le_bytes(v as int)[k as int],
{
    if k < 4 {
        le_byte_32((v % 4294967296) as u32, k)
    } else {
        le_byte_32((v / 4294967296) as u32, k - 4)
    }
}

impl PPMFile {
    /// Whether the fields can be stored.
    pub fn is_serializable(&self) -> (ok: bool)
        ensures
            ok == head_serializable(self.head()),
    {
        if self.root_name_buf.len() != 22 || self.parent_name_buf.len() != 22
            || self.child_name_buf.len() != 22 || self.parent_file_name_buf.len() != 18
            || self.current_file_name_buf.len() != 18 || self.root_file_fragment_buf.len() != 8 {
            return false;
        }
        if !self.thumbnail.check_shape() {
            assert(!head_serializable(self.head()));
            return false;
        }
        let count = self.animation_data.animation_offsets.len();
        if count != self.frame_count as usize + 1 {
            return false;
        }
        if 4 * count > self.animation_data.frame_offset_table_size as usize {
            return false;
        }
        let size: u64 = 8 + self.animation_data.frame_offset_table_size as u64;
        if self.animation_data.animation_data.len() as u64 > 0xFFFF_FFFFu64 - size {
            return false;
        }
        true
    }

    /// Byte `i` of the stored fields in front of the stored frames.
    #[verifier::rlimit(50)]
    fn head_byte(&self, sound_size: u32, i: usize) -> (b: u8)
        requires
            head_serializable(self.head()),
            i < OFFSET_TABLE_START + self.animation_data.frame_offset_table_size,
        ensures
            b == spec_head_byte(self.head(), sound_size, i as int),
    {
        let count = self.animation_data.animation_offsets.len();
        if i < 4 {
            if i == 0 {
                0x50
            } else if i == 1 {
                0x41
            } else if i == 2 {
                0x52
            } else {
                0x41
            }
        } else if i < 8 {
            let size: u32 = 8 + self.animation_data.frame_offset_table_size as u32
                + self.animation_data.animation_data.len() as u32;
            le_byte_32(size, i - 4)
        } else if i < 0xC {
            le_byte_32(sound_size, i - 8)
        } else if i < 0xE {
            le_byte_16(self.frame_count, i - 0xC)
        } else if i < 0x10 {
            le_byte_16(self.format_version, i - 0xE)
        } else if i < 0x12 {
            le_byte_16(self.locked_buf, i - 0x10)
        } else if i < 0x14 {
            le_byte_16(self.thumbnail_frame_index, i - 0x12)
        } else if i < 0x2A {
            self.root_name_buf[i - 0x14]
        } else if i < 0x40 {
            self.parent_name_buf[i - 0x2A]
        } else if i < 0x56 {
            self.child_name_buf[i - 0x40]
        } else if i < 0x5E {
            le_byte_64(self.parent_id, i - 0x56)
        } else if i < 0x66 {
            le_byte_64(self.current_id, i - 0x5E)
        } else if i < 0x78 {
            self.parent_file_name_buf[i - 0x66]
        } else if i < 0x8A {
            self.current_file_name_buf[i - 0x78]
        } else if i < 0x92 {
            le_byte_64(self.root_id, i - 0x8A)
        } else if i < 0x9A {
            self.root_file_fragment_buf[i - 0x92]
        } else if i < 0x9E {
            le_byte_32(self.time_stamp_buf, i - 0x9A)
        } else if i < 0xA0 {
            0
        } else if i < 0x6A0 {
            let t = (i - 0xA0) / 32;
            assert(self.thumbnail@[t as int].len() == TILE_BYTES);
            self.thumbnail.tiles[t].pixels[(i - 0xA0) % 32]
        } else if i < 0x6A2 {
            le_byte_16(self.animation_data.frame_offset_table_size, i - 0x6A0)
        } else if i < 0x6A6 {
            0
        } else if i < 0x6A8 {
            le_byte_16(self.animation_data.animation_flags.flags, i - 0x6A6)
        } else if i < 0x6A8 + 4 * count {
            le_byte_32(self.animation_data.animation_offsets[(i - 0x6A8) / 4], (i - 0x6A8) % 4)
        } else {
            0
        }
    }

    /// Appends the stored fields to an empty buffer.
    #[verifier::rlimit(50)]
    fn write_head(&self, out: &mut Vec<u8>, sound_size: u32)
        requires
            head_serializable(self.head()),
            old(out)@.len() == 0,
        ensures
            final(out)@ == spec_head_bytes(self.head(), sound_size),
    {
        let fixed: usize = OFFSET_TABLE_START + self.animation_data.frame_offset_table_size as usize;
        let mut i: usize = 0;
        while i < fixed
            invariant
                i <= fixed,
                fixed == OFFSET_TABLE_START + self.animation_data.frame_offset_table_size,
                head_serializable(self.head()),
                out@.len() == i,
                forall|k: int|
                    0 <= k < i ==> #[trigger] out@[k] == spec_head_byte(self.head(), sound_size, k),
            decreases fixed - i,
        {
            out.push(self.head_byte(sound_size, i));
            i = i + 1;
        }
        let ghost front = out@;
        push_bytes(out, self.animation_data.animation_data.as_slice());
        assert(out@ =~= spec_head_bytes(self.head(), sound_size)) by {
            assert forall|k: int| 0 <= k < out@.len() implies out@[k] == spec_head_byte(
                self.head(),
                sound_size,
                k,
            ) by {
                if k < fixed {
                    assert(out@[k] == front[k]);
                } else {
                    assert(out@[k] == self.animation_data.animation_data@[k - fixed]);
                }
            }
        }
    }
}

/// Reading the stored fields back gives the fields: whatever follows them in the file, the
/// bytes that store a head parse to that head, with the size of the animation section as
/// it was stored.
#[verifier::rlimit(50)]
pub proof fn lemma_head_roundtrip(head: FileHead, sound_size: u32, tail: Seq<u8>)
    requires
        head_serializable(head),
    ensures
        spec_parse_head(spec_head_bytes(head, sound_size) + tail) == Some(spec_stored_head(head)),
{
    lemma_stored_scalars(head, sound_size, tail);
    lemma_stored_names(head, sound_size, tail);
    lemma_stored_thumbnail(head, sound_size, tail);
    lemma_stored_offsets(head, sound_size, tail);
    lemma_stored_frames(head, sound_size, tail);
}

/// Each byte of the stored fields is in its place, whatever follows.
proof fn lemma_stored_byte(head: FileHead, sound_size: u32, tail: Seq<u8>, i: int)
    requires
        0 <= i < ANIMATION_START + spec_stored_size(head),
    ensures
        (spec_head_bytes(head, sound_size) + tail)[i] == spec_head_byte(head, sound_size, i),
        (spec_head_bytes(head, sound_size) + tail).len() >= ANIMATION_START + spec_stored_size(
            head,
        ),
{
    assert((spec_head_bytes(head, sound_size) + tail)[i] == spec_head_bytes(head, sound_size)[i]);
}

/// The magic tag and the numbers read back as they were stored.
#[verifier::rlimit(50)]
proof fn lemma_stored_scalars(head: FileHead, sound_size: u32, tail: Seq<u8>)
    requires
        head_serializable(head),
    ensures
        ({
            let bytes = spec_head_bytes(head, sound_size) + tail;
            &&& bytes.len() >= ANIMATION_START + spec_stored_size(head)
            &&& bytes[0] == spec_magic(0)
            &&& bytes[1] == spec_magic(1)
            &&& bytes[2] == spec_magic(2)
            &&& bytes[3] == spec_magic(3)
            &&& spec_u32_le(bytes, 4) == spec_stored_size(head)
            &&& spec_u16_le(bytes, 0xC) == head.frame_count
            &&& spec_u16_le(bytes, 0xE) == head.format_version
            &&& spec_u16_le(bytes, 0x10) == head.locked_buf
            &&& spec_u16_le(bytes, 0x12) == head.thumbnail_frame_index
            &&& spec_u64_le(bytes, 0x56) == head.parent_id
            &&& spec_u64_le(bytes, 0x5E) == head.current_id
            &&& spec_u64_le(bytes, 0x8A) == head.root_id
            &&& spec_u32_le(bytes, 0x9A) == head.time_stamp_buf
            &&& spec_u16_le(bytes, 0x6A0) == head.frame_offset_table_size
            &&& spec_u16_le(bytes, 0x6A6) == head.animation_flags
        }),
{
    let bytes = spec_head_bytes(head, sound_size) + tail;
    assert forall|i: int| 0 <= i < OFFSET_TABLE_START implies #[trigger] bytes[i]
        == spec_head_byte(head, sound_size, i) by {
        lemma_stored_byte(head, sound_size, tail, i);
    }
    lemma_stored_byte(head, sound_size, tail, 0);
    lemma_field_u32(bytes, 4, spec_stored_size(head));
    lemma_field_u16(bytes, 0xC, head.frame_count as int);
    lemma_field_u16(bytes, 0xE, head.format_version as int);
    lemma_field_u16(bytes, 0x10, head.locked_buf as int);
    lemma_field_u16(bytes, 0x12, head.thumbnail_frame_index as int);
    assert forall|j: int| 0 <= j < 8 implies #[trigger] bytes[0x56 + j] == spec_u64_le_bytes(
        head.parent_id as int,
    )[j] by {
        lemma_stored_byte(head, sound_size, tail, 0x56 + j);
    }
    lemma_field_u64(bytes, 0x56, head.parent_id as int);
    assert forall|j: int| 0 <= j < 8 implies #[trigger] bytes[0x5E + j] == spec_u64_le_bytes(
        head.current_id as int,
    )[j] by {
        lemma_stored_byte(head, sound_size, tail, 0x5E + j);
    }
    lemma_field_u64(bytes, 0x5E, head.current_id as int);
    assert forall|j: int| 0 <= j < 8 implies #[trigger] bytes[0x8A + j] == spec_u64_le_bytes(
        head.root_id as int,
    )[j] by {
        lemma_stored_byte(head, sound_size, tail, 0x8A + j);
    }
    lemma_field_u64(bytes, 0x8A, head.root_id as int);
    lemma_field_u32(bytes, 0x9A, head.time_stamp_buf as int);
    lemma_field_u16(bytes, 0x6A0, head.frame_offset_table_size as int);
    lemma_field_u16(bytes, 0x6A6, head.animation_flags as int);
}

/// The name fields read back as they were stored.
#[verifier::rlimit(50)]
proof fn lemma_stored_names(head: FileHead, sound_size: u32, tail: Seq<u8>)
    requires
        head_serializable(head),
    ensures
        ({
            let bytes = spec_head_bytes(head, sound_size) + tail;
            &&& bytes.subrange(0x14, 0x2A) == head.root_name_buf
            &&& bytes.subrange(0x2A, 0x40) == head.parent_name_buf
            &&& bytes.subrange(0x40, 0x56) == head.child_name_buf
            &&& bytes.subrange(0x66, 0x78) == head.parent_file_name_buf
            &&& bytes.subrange(0x78, 0x8A) == head.current_file_name_buf
            &&& bytes.subrange(0x92, 0x9A) == head.root_file_fragment_buf
        }),
{
    let bytes = spec_head_bytes(head, sound_size) + tail;
    assert forall|i: int| 0x14 <= i < 0x9A implies #[trigger] bytes[i] == spec_head_byte(
        head,
        sound_size,
        i,
    ) by {
        lemma_stored_byte(head, sound_size, tail, i);
    }
    lemma_stored_byte(head, sound_size, tail, 0);
    assert(bytes.subrange(0x14, 0x2A) =~= head.root_name_buf);
    assert(bytes.subrange(0x2A, 0x40) =~= head.parent_name_buf);
    assert(bytes.subrange(0x40, 0x56) =~= head.child_name_buf);
    assert(bytes.subrange(0x66, 0x78) =~= head.parent_file_name_buf);
    assert(bytes.subrange(0x78, 0x8A) =~= head.current_file_name_buf);
    assert(bytes.subrange(0x92, 0x9A) =~= head.root_file_fragment_buf);
}

/// The thumbnail reads back as it was stored.
#[verifier::rlimit(50)]
proof fn lemma_stored_thumbnail(head: FileHead, sound_size: u32, tail: Seq<u8>)
    requires
        head_serializable(head),
    ensures
        Seq::new(
            TILE_COUNT as nat,
            |t: int|
                (spec_head_bytes(head, sound_size) + tail).subrange(
                    THUMBNAIL_START + TILE_BYTES * t,
                    THUMBNAIL_START + TILE_BYTES * t + TILE_BYTES,
                ),
        ) == head.thumbnail,
{
    let bytes = spec_head_bytes(head, sound_size) + tail;
    let tiles = Seq::new(
        TILE_COUNT as nat,
        |t: int|
            bytes.subrange(
                THUMBNAIL_START + TILE_BYTES * t,
                THUMBNAIL_START + TILE_BYTES * t + TILE_BYTES,
            ),
    );
    lemma_stored_byte(head, sound_size, tail, 0);
    assert forall|t: int| 0 <= t < TILE_COUNT implies #[trigger] tiles[t] == head.thumbnail[t] by {
        assert(head.thumbnail[t].len() == TILE_BYTES);
        assert forall|k: int| 0 <= k < TILE_BYTES implies tiles[t][k] == head.thumbnail[t][k] by {
            let i = THUMBNAIL_START + TILE_BYTES * t + k;
            lemma_stored_byte(head, sound_size, tail, i);
            assert((i - 0xA0) / 32 == t && (i - 0xA0) % 32 == k);
        }
        assert(tiles[t] =~= head.thumbnail[t]);
    }
    assert(tiles =~= head.thumbnail);
}

/// The frame offsets read back as they were stored.
#[verifier::rlimit(50)]
proof fn lemma_stored_offsets(head: FileHead, sound_size: u32, tail: Seq<u8>)
    requires
        head_serializable(head),
    ensures
        Seq::new(
            (head.frame_count + 1) as nat,
            |k: int|
                spec_u32_le(spec_head_bytes(head, sound_size) + tail, OFFSET_TABLE_START + 4 * k) as u32,
        ) == head.animation_offsets,
{
    let bytes = spec_head_bytes(head, sound_size) + tail;
    let count = head.frame_count + 1;
    let offsets = Seq::new(
        count as nat,
        |k: int| spec_u32_le(bytes, OFFSET_TABLE_START + 4 * k) as u32,
    );
    lemma_stored_byte(head, sound_size, tail, 0);
    assert forall|k: int| 0 <= k < count implies #[trigger] offsets[k]
        == head.animation_offsets[k] by {
        let at = OFFSET_TABLE_START + 4 * k;
        assert forall|j: int| 0 <= j < 4 implies bytes[at + j] == spec_u32_le_bytes(
            head.animation_offsets[k] as int,
        )[j] by {
            lemma_stored_byte(head, sound_size, tail, at + j);
            assert((at + j - 0x6A8) / 4 == k && (at + j - 0x6A8) % 4 == j);
        }
        lemma_field_u32(bytes, at, head.animation_offsets[k] as int);
    }
    assert(offsets =~= head.animation_offsets);
}

/// The stored frames read back as they were stored.
#[verifier::rlimit(50)]
proof fn lemma_stored_frames(head: FileHead, sound_size: u32, tail: Seq<u8>)
    requires
        head_serializable(head),
    ensures
        (spec_head_bytes(head, sound_size) + tail).subrange(
            OFFSET_TABLE_START + head.frame_offset_table_size,
            ANIMATION_START + spec_stored_size(head),
        ) == head.animation_data,
{
    let bytes = spec_head_bytes(head, sound_size) + tail;
    let from = OFFSET_TABLE_START + head.frame_offset_table_size;
    let frames = bytes.subrange(from, ANIMATION_START + spec_stored_size(head));
    lemma_stored_byte(head, sound_size, tail, 0);
    assert forall|k: int| 0 <= k < head.animation_data.len() implies frames[k]
        == head.animation_data[k] by {
        lemma_stored_byte(head, sound_size, tail, from + k);
    }
    assert(frames =~= head.animation_data);
}

/// A 16-bit field whose two bytes are in place reads as its value.
proof fn lemma_field_u16(bytes: Seq<u8>, at: int, v: int)
    requires
        0 <= v < 65536,
        0 <= at,
        at + 2 <= bytes.len(),
        bytes[at] == spec_u16_le_bytes(v)[0],
        bytes[at + 1] == spec_u16_le_bytes(v)[1],
    ensures
        spec_u16_le(bytes, at) == v,
{
    assert(bytes.subrange(at, at + 2) =~= spec_u16_le_bytes(v));
    lemma_u16_le_roundtrip(v, bytes, at);
}

/// A 32-bit field whose four bytes are in place reads as its value.
proof fn lemma_field_u32(bytes: Seq<u8>, at: int, v: int)
    requires
        0 <= v < 4294967296,
        0 <= at,
        at + 4 <= bytes.len(),
        bytes[at] == spec_u32_le_bytes(v)[0],
        bytes[at + 1] == spec_u32_le_bytes(v)[1],
        bytes[at + 2] == spec_u32_le_bytes(v)[2],
        bytes[at + 3] == spec_u32_le_bytes(v)[3],
    ensures
        spec_u32_le(bytes, at) == v,
{
    assert(bytes.subrange(at, at + 4) =~= spec_u32_le_bytes(v));
    lemma_u32_le_roundtrip(v, bytes, at);
}

/// A 64-bit field whose eight bytes are in place reads as its value.
proof fn lemma_field_u64(bytes: Seq<u8>, at: int, v: int)
    requires
        0 <= v < 18446744073709551616,
        0 <= at,
        at + 8 <= bytes.len(),
        forall|j: int| 0 <= j < 8 ==> #[trigger] bytes[at + j] == spec_u64_le_bytes(v)[j],
    ensures
        spec_u64_le(bytes, at) == v,
{
    assert forall|j: int| 0 <= j < 8 implies bytes.subrange(at, at + 8)[j] == spec_u64_le_bytes(
        v,
    )[j] by {
        assert(bytes[at + j] == spec_u64_le_bytes(v)[j]);
    }
    assert(bytes.subrange(at, at + 8) =~= spec_u64_le_bytes(v));
    lemma_u64_le_roundtrip(v, bytes, at);
}

/// The signed body of a container: the stored fields and the audio section written anew.
/// `Format` where the fields cannot be stored; else the first failure of the audio writer.
pub open spec fn spec_body_bytes(head: FileHead, audio: AudioView) -> Result<Seq<u8>, PpmError> {
    if !head_serializable(head) {
        Err(PpmError::Format)
    } else {
        match spec_write_audio(
            audio,
            head.frame_count + 1,
            ANIMATION_START + spec_stored_size(head) + head.frame_count + 1,
        ) {
            Err(e) => Err(e),
            Ok((audio_bytes, sound_size)) => Ok(spec_head_bytes(head, sound_size) + audio_bytes),
        }
    }
}

/// The bytes of a container: the body, the signature of 0x80 bytes and 0x10 zero bytes.
/// `Format` where the signature has another length.
pub open spec fn spec_file_bytes(file: FileView) -> Result<Seq<u8>, PpmError> {
    match spec_body_bytes(file.head, file.audio) {
        Err(e) => Err(e),
        Ok(body) => if file.signature.len() == SIGNATURE_SIZE {
            Ok(body + file.signature + Seq::new(SIGNATURE_PADDING as nat, |i: int| 0u8))
        } else {
            Err(PpmError::Format)
        },
    }
}

/// The fields that are read from a file are consistent: the size of the animation section
/// is the one that would be stored, and there is one offset for each frame.
pub proof fn lemma_parsed_head_consistent(bytes: Seq<u8>)
    requires
        spec_parse_head(bytes) is Some,
    ensures
        spec_stored_head(spec_parse_head(bytes)->Some_0) == spec_parse_head(bytes)->Some_0,
        spec_parse_head(bytes)->Some_0.animation_offsets.len() == spec_parse_head(
            bytes,
        )->Some_0.frame_count + 1,
{
}

/// The bytes of a container open with its stored fields.
#[verifier::rlimit(50)]
pub proof fn lemma_file_bytes_open_with_head(file: FileView)
    requires
        spec_file_bytes(file) is Ok,
    ensures
        head_serializable(file.head),
        exists|sound_size: u32, tail: Seq<u8>|
            spec_file_bytes(file)->Ok_0 == spec_head_bytes(file.head, sound_size) + tail,
{
    let head = file.head;
    let written = spec_write_audio(
        file.audio,
        head.frame_count + 1,
        ANIMATION_START + spec_stored_size(head) + head.frame_count + 1,
    )->Ok_0;
    let tail = written.0 + file.signature + Seq::new(SIGNATURE_PADDING as nat, |i: int| 0u8);
    assert(spec_body_bytes(head, file.audio) == Ok::<Seq<u8>, PpmError>(
        spec_head_bytes(head, written.1) + written.0,
    ));
    assert(spec_file_bytes(file)->Ok_0 =~= spec_head_bytes(head, written.1) + tail);
}

/// A container that is read and written can be read again, and then has the fields that it
/// had when first read: all that does not belong to the audio section comes back exactly,
/// the signature too. The one condition is a limit of the machine: the tracks, as they are
/// written, must decode to samples that fit in memory.
#[verifier::rlimit(80)]
pub proof fn lemma_saved_file_loads(bytes: Seq<u8>)
    requires
        spec_from_bytes(bytes) is Ok,
        spec_file_bytes(spec_from_bytes(bytes)->Ok_0) is Ok,
        rewritten_tracks_read(spec_from_bytes(bytes)->Ok_0.audio),
    ensures
        spec_from_bytes(spec_file_bytes(spec_from_bytes(bytes)->Ok_0)->Ok_0) is Ok,
        spec_from_bytes(spec_file_bytes(spec_from_bytes(bytes)->Ok_0)->Ok_0)->Ok_0.head
            == spec_from_bytes(bytes)->Ok_0.head,
        spec_from_bytes(spec_file_bytes(spec_from_bytes(bytes)->Ok_0)->Ok_0)->Ok_0.signature
            == spec_from_bytes(bytes)->Ok_0.signature,
{
    let first = spec_from_bytes(bytes)->Ok_0;
    let head = first.head;
    let saved = spec_file_bytes(first)->Ok_0;
    let count = head.frame_count + 1;
    let start = spec_sound_header_start(head);
    lemma_loaded_head(bytes);
    lemma_parsed_head_consistent(bytes);
    lemma_read_audio_facts(bytes, ANIMATION_START + head.animation_data_size, count, start);
    assert(start == ANIMATION_START + spec_stored_size(head) + head.frame_count + 1);
    let written = spec_write_audio(first.audio, count, start)->Ok_0;
    let stored_head = spec_head_bytes(head, written.1);
    let trailer = first.signature + Seq::new(SIGNATURE_PADDING as nat, |i: int| 0u8);
    assert(spec_body_bytes(head, first.audio) == Ok::<Seq<u8>, PpmError>(
        stored_head + written.0,
    ));
    assert(saved =~= stored_head + written.0 + trailer);
    assert(saved =~= stored_head + (written.0 + trailer));
    lemma_head_roundtrip(head, written.1, written.0 + trailer);
    lemma_audio_reads_back(first.audio, count, start, stored_head, trailer);
    let behind = (stored_head.len() + written.0.len()) as int;
    assert(saved.len() == behind + TRAILER_SIZE);
    assert(saved.subrange(behind, behind + SIGNATURE_SIZE) =~= first.signature);
}

/// Where a track, as it is written, decodes to more samples than fit in memory, the
/// container that was read and written is refused with `Codec` when it is read again.
#[verifier::rlimit(80)]
pub proof fn lemma_saved_file_too_long(bytes: Seq<u8>)
    requires
        spec_from_bytes(bytes) is Ok,
        spec_file_bytes(spec_from_bytes(bytes)->Ok_0) is Ok,
        !rewritten_tracks_read(spec_from_bytes(bytes)->Ok_0.audio),
    ensures
        spec_from_bytes(spec_file_bytes(spec_from_bytes(bytes)->Ok_0)->Ok_0) == Err::<
            FileView,
            PpmError,
        >(PpmError::Codec),
{
    let first = spec_from_bytes(bytes)->Ok_0;
    let head = first.head;
    let saved = spec_file_bytes(first)->Ok_0;
    let count = head.frame_count + 1;
    let start = spec_sound_header_start(head);
    lemma_loaded_head(bytes);
    lemma_parsed_head_consistent(bytes);
    lemma_read_audio_facts(bytes, ANIMATION_START + head.animation_data_size, count, start);
    assert(start == ANIMATION_START + spec_stored_size(head) + head.frame_count + 1);
    let written = spec_write_audio(first.audio, count, start)->Ok_0;
    let stored_head = spec_head_bytes(head, written.1);
    let trailer = first.signature + Seq::new(SIGNATURE_PADDING as nat, |i: int| 0u8);
    assert(spec_body_bytes(head, first.audio) == Ok::<Seq<u8>, PpmError>(
        stored_head + written.0,
    ));
    assert(saved =~= stored_head + written.0 + trailer);
    assert(saved =~= stored_head + (written.0 + trailer));
    lemma_head_roundtrip(head, written.1, written.0 + trailer);
    lemma_audio_reads_back(first.audio, count, start, stored_head, trailer);
}

/// On a machine whose sizes have 48 bits or more, every container that is read and written
/// is read again, with the fields and the signature that it had when first read.
pub proof fn lemma_load_save_load_succeeds(bytes: Seq<u8>)
    requires
        usize::MAX >= 0xFFFF_FFFF_FFFF,
        spec_from_bytes(bytes) is Ok,
        spec_file_bytes(spec_from_bytes(bytes)->Ok_0) is Ok,
    ensures
        spec_from_bytes(spec_file_bytes(spec_from_bytes(bytes)->Ok_0)->Ok_0) is Ok,
        spec_from_bytes(spec_file_bytes(spec_from_bytes(bytes)->Ok_0)->Ok_0)->Ok_0.head
            == spec_from_bytes(bytes)->Ok_0.head,
        spec_from_bytes(spec_file_bytes(spec_from_bytes(bytes)->Ok_0)->Ok_0)->Ok_0.signature
            == spec_from_bytes(bytes)->Ok_0.signature,
{
    let first = spec_from_bytes(bytes)->Ok_0;
    let head = first.head;
    assert(spec_body_bytes(head, first.audio) is Ok);
    lemma_written_section(
        first.audio,
        head.frame_count + 1,
        ANIMATION_START + spec_stored_size(head) + head.frame_count + 1,
    );
    lemma_rewritten_tracks_read(first.audio);
    lemma_saved_file_loads(bytes);
}

/// A container that is read, written and read again has the fields that it had when first
/// read: all that does not belong to the audio section or the signature comes back exactly.
/// The second reading succeeds exactly where the tracks, as they are written, decode to
/// samples that fit in memory; where they do not, it fails with `Codec` and with nothing
/// else.
pub proof fn lemma_load_save_load(bytes: Seq<u8>)
    requires
        spec_from_bytes(bytes) is Ok,
        spec_file_bytes(spec_from_bytes(bytes)->Ok_0) is Ok,
    ensures
        spec_parse_head(spec_file_bytes(spec_from_bytes(bytes)->Ok_0)->Ok_0) == Some(
            spec_from_bytes(bytes)->Ok_0.head,
        ),
        spec_from_bytes(spec_file_bytes(spec_from_bytes(bytes)->Ok_0)->Ok_0) is Ok
            ==> spec_from_bytes(spec_file_bytes(spec_from_bytes(bytes)->Ok_0)->Ok_0)->Ok_0.head
            == spec_from_bytes(bytes)->Ok_0.head,
        rewritten_tracks_read(spec_from_bytes(bytes)->Ok_0.audio) ==> spec_from_bytes(
            spec_file_bytes(spec_from_bytes(bytes)->Ok_0)->Ok_0,
        ) is Ok,
        !rewritten_tracks_read(spec_from_bytes(bytes)->Ok_0.audio) ==> spec_from_bytes(
            spec_file_bytes(spec_from_bytes(bytes)->Ok_0)->Ok_0,
        ) == Err::<FileView, PpmError>(PpmError::Codec),
{
    let first = spec_from_bytes(bytes)->Ok_0;
    let saved = spec_file_bytes(first)->Ok_0;
    lemma_loaded_head(bytes);
    lemma_parsed_head_consistent(bytes);
    lemma_file_bytes_open_with_head(first);
    let (sound_size, tail): (u32, Seq<u8>) = choose|sound_size: u32, tail: Seq<u8>|
        saved == spec_head_bytes(first.head, sound_size) + tail;
    lemma_head_roundtrip(first.head, sound_size, tail);
    if spec_from_bytes(saved) is Ok {
        lemma_loaded_head(saved);
    }
    if rewritten_tracks_read(first.audio) {
        lemma_saved_file_loads(bytes);
    } else {
        lemma_saved_file_too_long(bytes);
    }
}

/// The fields of a container that is read are those at their fixed places.
pub proof fn lemma_loaded_head(bytes: Seq<u8>)
    requires
        spec_from_bytes(bytes) is Ok,
    ensures
        spec_parse_head(bytes) == Some(spec_from_bytes(bytes)->Ok_0.head),
{
}

/// A file whose header gives the frame count N holds N + 1 offsets, and decoding its frames
/// gives N + 1 frames.
pub proof fn lemma_frame_count(bytes: Seq<u8>)
    requires
        spec_parse_head(bytes) is Some,
    ensures
        ({
            let head = spec_parse_head(bytes)->Some_0;
            let frames = spec_decode_frames(
                head.animation_data,
                head.animation_offsets,
                PPMAnimationFlags { flags: head.animation_flags },
                head.animation_offsets.len() as int,
            );
            &&& head.animation_offsets.len() == head.frame_count + 1
            &&& frames is Ok ==> frames->Ok_0.len() == head.frame_count + 1
        }),
{
    let head = spec_parse_head(bytes)->Some_0;
    lemma_decode_frames_len(
        head.animation_data,
        head.animation_offsets,
        PPMAnimationFlags { flags: head.animation_flags },
        head.animation_offsets.len() as int,
    );
}

impl PPMFile {
    /// The signed body: the container written anew, without the signature and its padding.
    #[verifier::rlimit(50)]
    pub fn get_body(&self) -> (r: Result<Vec<u8>, PpmError>)
        ensures
            match spec_body_bytes(self.head(), self.audio@) {
                Ok(body) => r is Ok && r->Ok_0@ == body,
                Err(e) => r is Err && r->Err_0 == e,
            },
    {
        if !self.is_serializable() {
            return Err(PpmError::Format);
        }
        let count: u32 = self.frame_count as u32 + 1;
        let size: u64 = 8 + self.animation_data.frame_offset_table_size as u64
            + self.animation_data.animation_data.len() as u64;
        let sound_header_start: u64 = ANIMATION_START as u64 + size + count as u64;
        let mut audio_bytes: Vec<u8> = Vec::new();
        let sound_size = match inner_writer(&mut audio_bytes, &self.audio, count, sound_header_start) {
            Ok(s) => s,
            Err(e) => {
                return Err(e);
            },
        };
        let mut out: Vec<u8> = Vec::new();
        self.write_head(&mut out, sound_size);
        push_bytes(&mut out, audio_bytes.as_slice());
        Ok(out)
    }

    /// The bytes of the container as a file.
    pub fn to_bytes(&self) -> (r: Result<Vec<u8>, PpmError>)
        ensures
            match spec_file_bytes(self@) {
                Ok(bytes) => r is Ok && r->Ok_0@ == bytes,
                Err(e) => r is Err && r->Err_0 == e,
            },
    {
        let mut out = match self.get_body() {
            Ok(b) => b,
            Err(e) => {
                return Err(e);
            },
        };
        if self.signature.len() != SIGNATURE_SIZE {
            return Err(PpmError::Format);
        }
        push_bytes(&mut out, self.signature.as_slice());
        push_zeros(&mut out, SIGNATURE_PADDING);
        Ok(out)
    }

    /// Whether the signature signs the container as it would be written now, under the
    /// vendor's public key.
    pub fn verify_signature(&self) -> (r: Result<bool, PpmError>)
        ensures
            match spec_body_bytes(self.head(), self.audio@) {
                Ok(body) => match spec_rsa_verify(
                    FLIPNOTE_STUDIO_PUBLIC_KEY@,
                    spec_sha1(body),
                    self.signature@,
                ) {
                    Some(valid) => r == Ok::<bool, PpmError>(valid),
                    None => r == Err::<bool, PpmError>(PpmError::Crypto),
                },
                Err(e) => r == Err::<bool, PpmError>(e),
            },
    {
        let body = match self.get_body() {
            Ok(b) => b,
            Err(e) => {
                return Err(e);
            },
        };
        let hash = hash_data(body.as_slice());
        verify(hash.as_slice(), self.signature.as_slice(), FLIPNOTE_STUDIO_PUBLIC_KEY)
    }

    /// Whether the signature signs the bytes that the container was read from, under the
    /// vendor's public key. `Format` where those bytes are shorter than the signature and
    /// its padding.
    pub fn verify_read_signature(&self) -> (r: Result<bool, PpmError>)
        ensures
            r == spec_verify_read(self@),
    {
        if self.original_data.len() < TRAILER_SIZE {
            return Err(PpmError::Format);
        }
        let mut cursor = ByteCursor::new(self.original_data.as_slice());
        let body = match cursor.read_bytes(self.original_data.len() - TRAILER_SIZE) {
            Ok(b) => b,
            Err(e) => {
                return Err(PpmError::Format);
            },
        };
        let hash = hash_data(body.as_slice());
        verify(hash.as_slice(), self.signature.as_slice(), FLIPNOTE_STUDIO_PUBLIC_KEY)
    }

    /// Puts `signature` in place and checks it: `Crypto` where it is not 0x80 bytes long,
    /// in which case the container stays as it was, or where it does not sign the container
    /// under the vendor's public key, in which case it stays in place.
    pub fn install_signature(&mut self, signature: Vec<u8>) -> (r: Result<(), PpmError>)
        ensures
            final(self)@ == (FileView {
                signature: if signature@.len() == SIGNATURE_SIZE {
                    signature@
                } else {
                    old(self).signature@
                },
                ..old(self)@
            }),
            match spec_body_bytes(old(self).head(), old(self).audio@) {
                Ok(body) => if signature@.len() == SIGNATURE_SIZE && spec_rsa_verify(
                    FLIPNOTE_STUDIO_PUBLIC_KEY@,
                    spec_sha1(body),
                    signature@,
                ) == Some(true) {
                    r is Ok
                } else {
                    r == Err::<(), PpmError>(PpmError::Crypto)
                },
                Err(e) => if signature@.len() == SIGNATURE_SIZE {
                    r == Err::<(), PpmError>(e)
                } else {
                    r == Err::<(), PpmError>(PpmError::Crypto)
                },
            },
    {
        if signature.len() != SIGNATURE_SIZE {
            return Err(PpmError::Crypto);
        }
        self.signature = signature;
        match self.verify_signature() {
            Ok(true) => Ok(()),
            Ok(false) => Err(PpmError::Crypto),
            Err(e) => Err(e),
        }
    }

    /// Signs the container with `private_key`: the body is hashed and signed, the signature
    /// is put in place, and the container is verified under the vendor's public key. On
    /// success the container carries a signature that verifies.
    pub fn sign(&mut self, private_key: &rsa::RsaPrivateKey) -> (r: Result<(), PpmError>)
        ensures
            final(self)@ == (FileView { signature: final(self).signature@, ..old(self)@ }),
            spec_body_bytes(old(self).head(), old(self).audio@) is Err ==> r is Err && r->Err_0
                == spec_body_bytes(old(self).head(), old(self).audio@)->Err_0
                    && final(self).signature@ == old(self).signature@,
            r is Ok ==> final(self).signature@.len() == SIGNATURE_SIZE && spec_rsa_verify(
                FLIPNOTE_STUDIO_PUBLIC_KEY@,
                spec_sha1(spec_body_bytes(old(self).head(), old(self).audio@)->Ok_0),
                final(self).signature@,
            ) == Some(true),
            r is Err && spec_body_bytes(old(self).head(), old(self).audio@) is Ok ==> r->Err_0
                == PpmError::Crypto,
    {
        let body = match self.get_body() {
            Ok(b) => b,
            Err(e) => {
                return Err(e);
            },
        };
        let hash = hash_data(body.as_slice());
        let signature = match sign(hash.as_slice(), private_key) {
            Ok(s) => s,
            Err(e) => {
                return Err(PpmError::Crypto);
            },
        };
        self.install_signature(signature)
    }
}

/// What checking the bytes that a container was read from gives: `Format` where they are
/// shorter than the signature and its padding, `Crypto` where the vendor's key does not
/// parse, else whether the signature signs the digest of the bytes in front of the last
/// 0x90. A signature that does not match is `Ok(false)`.
pub open spec fn spec_verify_read(file: FileView) -> Result<bool, PpmError> {
    if file.original_data.len() < TRAILER_SIZE {
        Err(PpmError::Format)
    } else {
        match spec_rsa_verify(
            FLIPNOTE_STUDIO_PUBLIC_KEY@,
            spec_sha1(file.original_data.subrange(0, file.original_data.len() - TRAILER_SIZE)),
            file.signature,
        ) {
            Some(valid) => Ok(valid),
            None => Err(PpmError::Crypto),
        }
    }
}

/// For a container that was read, a signature that does not match is a result and never a
/// failure: where the vendor's key parses, checking the read bytes gives `Ok`, and whether
/// it gives `Ok(true)` or `Ok(false)` is what the outside verification answers on the digest
/// of the signed bytes and the signature that was read. The signed bytes are all but the
/// last 0x90, so a change to any of them changes what is hashed.
pub proof fn lemma_mismatch_is_a_result(bytes: Seq<u8>)
    requires
        spec_from_bytes(bytes) is Ok,
        spec_pem_holds_key(FLIPNOTE_STUDIO_PUBLIC_KEY@),
    ensures
        bytes.len() >= TRAILER_SIZE,
        spec_verify_read(spec_from_bytes(bytes)->Ok_0) == Ok::<bool, PpmError>(
            spec_rsa_valid(
                FLIPNOTE_STUDIO_PUBLIC_KEY@,
                spec_sha1(bytes.subrange(0, bytes.len() - TRAILER_SIZE)),
                spec_from_bytes(bytes)->Ok_0.signature,
            ),
        ),
{
    lemma_loaded_head(bytes);
    let head = spec_parse_head(bytes)->Some_0;
    lemma_read_audio_position(
        bytes,
        ANIMATION_START + head.animation_data_size,
        head.frame_count + 1,
        spec_sound_header_start(head),
    );
}

/// What is made of the way the video encoder ended: an encoder that did not end with
/// success is a reported failure.
pub fn encoder_result(success: bool) -> (r: Result<(), PpmError>)
    ensures
        success ==> r is Ok,
        !success ==> r == Err::<(), PpmError>(PpmError::ExternalProcess),
{
    if success {
        Ok(())
    } else {
        Err(PpmError::ExternalProcess)
    }
}

/// What a video encoder is handed: the raw video, the raw audio and the frames per second.
pub struct ExportStreams {
    pub video: Vec<u8>,
    pub audio: Vec<u8>,
    pub framerate: Ratio,
}

impl PPMFile {
    /// The streams for a video encoder: the painted frames one after another, the mixed
    /// timeline at `audio_sample_rate` as 16-bit little-endian samples, and the frame rate.
    /// The first failure is the result: of decoding the frames, then `Format` for a playback
    /// speed that selects no frame rate, then of resampling the timeline.
    pub fn export_streams(&self, audio_sample_rate: i32) -> (r: Result<ExportStreams, PpmError>)
        ensures
            match spec_decode_frames(
                self.animation_data.animation_data@,
                self.animation_data.animation_offsets@,
                self.animation_data.animation_flags,
                self.animation_data.animation_offsets@.len() as int,
            ) {
                Err(e) => r is Err && r->Err_0 == e,
                Ok(frames) => if self.audio@.header.frame_playback_speed > 8 {
                    r is Err && r->Err_0 == PpmError::Format
                } else {
                    match spec_wav_resample(
                        spec_mixed_or_empty(self.audio@.mixed),
                        audio_sample_rate,
                    ) {
                        Err(e) => r is Err && r->Err_0 == e,
                        Ok(sound) => r is Ok && r->Ok_0.video@ == spec_video_bytes(frames)
                            && r->Ok_0.audio@ == spec_pcm_bytes(sound.samples) && r->Ok_0.framerate
                            == (Ratio {
                            numerator: spec_framerate_doubled(
                                self.audio@.header.frame_playback_speed,
                            ) as u128,
                            denominator: 2,
                        }),
                    }
                },
            },
    {
        let video = match self.animation_data.video_stream() {
            Ok(v) => v,
            Err(e) => {
                return Err(e);
            },
        };
        let framerate = match self.audio.audio_header.get_framerate() {
            Ok(f) => f,
            Err(e) => {
                return Err(e);
            },
        };
        let audio = match self.audio.audio_stream(audio_sample_rate) {
            Ok(a) => a,
            Err(e) => {
                return Err(e);
            },
        };
        Ok(ExportStreams { video, audio, framerate })
    }
}

} // verus!

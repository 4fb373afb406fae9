//! Keeping the bytes that a container is read from.

use vstd::prelude::*;
use crate::utils::cursor::{ByteCursor, push_bytes};

verus! {

/// Bytes of the magic tag in front of the file header.
pub const MAGIC_SIZE: usize = 4;

/// A copy of all bytes under the cursor, from the first on. The cursor is left behind the
/// magic tag, where the file header goes on.
pub fn ppm_parser(cursor: &mut ByteCursor) -> (data: Vec<u8>)
    ensures
        data@ == old(cursor).data@,
        final(cursor).data@ == old(cursor).data@,
        final(cursor).pos == MAGIC_SIZE,
{
    cursor.seek(0);
    let mut data: Vec<u8> = Vec::with_capacity(cursor.data.len());
    push_bytes(&mut data, cursor.data);
    assert(data@ =~= cursor.data@);
    cursor.seek(MAGIC_SIZE);
    data
}

} // verus!

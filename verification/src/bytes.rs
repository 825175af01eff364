//! Little-endian reads from byte buffers.

use vstd::prelude::*;
use crate::data::{DataError, FormatError};

verus! {

/// The little-endian `u16` stored at `index`.
pub open spec fn u16_at(data: Seq<u8>, index: int) -> u16 {
    (data[index] as int + 256 * data[index + 1] as int) as u16
}

/// The little-endian `u32` stored at `index`.
pub open spec fn u32_at(data: Seq<u8>, index: int) -> u32 {
    (data[index] as int + 256 * data[index + 1] as int + 65536 * data[index + 2] as int
        + 16777216 * data[index + 3] as int) as u32
}

/// A `u32` is its low `u16` followed by its high `u16`.
pub proof fn lemma_u32_is_two_u16(data: Seq<u8>, index: int)
    requires
        fits(data, index, 4),
    ensures
        u32_at(data, index) == u16_at(data, index) + 65536 * u16_at(data, index + 2),
{
}

/// Whether `width` bytes starting at `index` lie inside `data`.
pub open spec fn fits(data: Seq<u8>, index: int, width: int) -> bool {
    0 <= index && index + width <= data.len()
}

/// Reads the little-endian `u16` at `index`.
pub fn read_u16(data: &[u8], index: usize) -> (r: Result<u16, DataError>)
    ensures
        fits(data@, index as int, 2) ==> r == Ok::<u16, DataError>(u16_at(data@, index as int)),
        !fits(data@, index as int, 2) ==> r == Err::<u16, DataError>(
            DataError::InvalidFormat(FormatError::U16OutOfBounds),
        ),
{
    if index > data.len() || data.len() - index < 2 {
        return Err(DataError::InvalidFormat(FormatError::U16OutOfBounds));
    }
    let b0 = data[index] as u16;
    let b1 = data[index + 1] as u16;
    Ok(b0 + 256 * b1)
}

/// Reads the little-endian `u32` at `index`.
pub fn read_u32(data: &[u8], index: usize) -> (r: Result<u32, DataError>)
    ensures
        fits(data@, index as int, 4) ==> r == Ok::<u32, DataError>(u32_at(data@, index as int)),
        !fits(data@, index as int, 4) ==> r == Err::<u32, DataError>(
            DataError::InvalidFormat(FormatError::U32OutOfBounds),
        ),
{
    if index > data.len() || data.len() - index < 4 {
        return Err(DataError::InvalidFormat(FormatError::U32OutOfBounds));
    }
    let b0 = data[index] as u32;
    let b1 = data[index + 1] as u32;
    let b2 = data[index + 2] as u32;
    let b3 = data[index + 3] as u32;
    Ok(b0 + 256 * b1 + 65536 * b2 + 16777216 * b3)
}

/// Reads the `u16` at `*cursor` and, when that succeeds, moves the cursor past it.
pub fn read_u16_from_slice(data: &[u8], cursor: &mut usize) -> (r: Result<u16, DataError>)
    ensures
        fits(data@, *old(cursor) as int, 2) ==> {
            &&& r == Ok::<u16, DataError>(u16_at(data@, *old(cursor) as int))
            &&& *final(cursor) == *old(cursor) + 2
        },
        !fits(data@, *old(cursor) as int, 2) ==> {
            &&& r == Err::<u16, DataError>(DataError::InvalidFormat(FormatError::U16OutOfBounds))
            &&& *final(cursor) == *old(cursor)
        },
{
    let len = data.len();
    match read_u16(data, *cursor) {
        Ok(value) => {
            *cursor = *cursor + 2;
            Ok(value)
        },
        Err(error) => Err(error),
    }
}

} // verus!

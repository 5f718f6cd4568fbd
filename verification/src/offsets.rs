//! The table of segment boundaries.
//!
//! Four boundary markers stand at a fixed place near the end of the header.
//! Each pair of neighbours bounds the event stream of one difficulty, so
//! the three segments follow one another without a gap.
use crate::bytes::{i32_at, le_i32};
use crate::header::HEADER_SIZE;
use crate::parser::ParsingError;
use vstd::prelude::*;

verus! {

/// Where the table of boundary markers starts in the file.
pub const OFFSET_TABLE_POSITION: usize = 284;

/// The half-open byte range `[start, end)` of one difficulty's event stream
/// inside the file.
#[derive(Debug, Clone, Copy, PartialEq, Eq, Structural)]
pub struct ChartOffsets {
    pub start: i32,
    pub end: i32,
}

impl ChartOffsets {
    /// Whether the range lies inside a file of `len` bytes.
    pub open spec fn within(self, len: nat) -> bool {
        0 <= self.start <= self.end <= len
    }
}

/// Boundary marker `i` of the table in `data`: a signed 32-bit
/// little-endian integer.
pub open spec fn boundary(data: Seq<u8>, i: int) -> int {
    le_i32(data, OFFSET_TABLE_POSITION + 4 * i)
}

/// The end of the last segment once the marker `end` is resolved against a
/// file of `file_len` bytes: a marker of 0 stands for the end of the file.
pub open spec fn resolved_end(end: int, file_len: nat) -> int {
    if end == 0 {
        file_len as int
    } else {
        end
    }
}

/// Where segment `i` of the file starts.
pub open spec fn segment_start(data: Seq<u8>, i: int) -> int {
    boundary(data, i)
}

/// Where segment `i` of the file ends. The end marker of the last segment
/// is resolved against the length of the file.
pub open spec fn segment_end(data: Seq<u8>, i: int) -> int {
    if i == 2 {
        resolved_end(boundary(data, 3), data.len())
    } else {
        boundary(data, i + 1)
    }
}

/// Whether the table of a file can be read: the file holds all of it, and
/// the resolved end of the last segment is no more than a marker can hold.
pub open spec fn table_readable(data: Seq<u8>) -> bool {
    data.len() >= HEADER_SIZE && segment_end(data, 2) <= i32::MAX
}

/// Where the end marker of the last segment is 0, the segment ends where
/// the file ends.
pub proof fn lemma_last_segment_reaches_end_of_file(data: Seq<u8>)
    requires
        boundary(data, 3) == 0,
    ensures
        segment_end(data, 2) == data.len(),
{
}

/// The segments follow one another: each ends where the next starts.
pub proof fn lemma_segments_are_contiguous(data: Seq<u8>, i: int)
    requires
        0 <= i < 2,
    ensures
        segment_end(data, i) == segment_start(data, i + 1),
{
}

/// Resolves the end of the last segment: a marker of 0 becomes the length
/// of the file, any other marker stays.
///
/// Fails with `FileError` when the marker is 0 and the length of the file
/// is more than a marker can hold.
pub fn resolve_last_end(last: ChartOffsets, file_len: usize) -> (r: Result<
    ChartOffsets,
    ParsingError,
>)
    ensures
        match r {
            Ok(resolved) => {
                &&& resolved.start == last.start
                &&& resolved.end == resolved_end(last.end as int, file_len as nat)
            },
            Err(e) => {
                &&& e == ParsingError::FileError
                &&& resolved_end(last.end as int, file_len as nat) > i32::MAX
            },
        },
{
    if last.end != 0 {
        Ok(last)
    } else if file_len > i32::MAX as usize {
        Err(ParsingError::FileError)
    } else {
        Ok(ChartOffsets { start: last.start, end: file_len as i32 })
    }
}

/// Reads the three segments that the table of boundary markers bounds. An
/// end marker of 0 on the last segment is replaced by the length of the
/// file.
///
/// Fails with `FileError` when the file ends before the table does, and
/// when the end marker is 0 and the length of the file is more than a
/// marker can hold.
pub fn read_chart_offsets(data: &[u8]) -> (r: Result<[ChartOffsets; 3], ParsingError>)
    ensures
        match r {
            Ok(offsets) => {
                &&& table_readable(data@)
                &&& offsets[0].start == segment_start(data@, 0)
                &&& offsets[0].end == segment_end(data@, 0)
                &&& offsets[1].start == segment_start(data@, 1)
                &&& offsets[1].end == segment_end(data@, 1)
                &&& offsets[2].start == segment_start(data@, 2)
                &&& offsets[2].end == segment_end(data@, 2)
                &&& offsets[0].end == offsets[1].start
                &&& offsets[1].end == offsets[2].start
            },
            Err(e) => e == ParsingError::FileError && !table_readable(data@),
        },
{
    if data.len() < HEADER_SIZE {
        return Err(ParsingError::FileError);
    }
    let b0 = i32_at(data, OFFSET_TABLE_POSITION);
    let b1 = i32_at(data, OFFSET_TABLE_POSITION + 4);
    let b2 = i32_at(data, OFFSET_TABLE_POSITION + 8);
    let b3 = i32_at(data, OFFSET_TABLE_POSITION + 12);
    let last = resolve_last_end(ChartOffsets { start: b2, end: b3 }, data.len())?;
    Ok([ChartOffsets { start: b0, end: b1 }, ChartOffsets { start: b1, end: b2 }, last])
}

} // verus!

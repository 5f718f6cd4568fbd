//! Counting playable notes in one segment's event stream.
//!
//! A segment is a run of blocks. A block is an 8-byte header (4 bytes that
//! are not read, the channel, the number of sub-events) followed by its
//! sub-events of 4 bytes each (the value, a byte that is not read, the note
//! type). Channels 2 to 8 carry notes; each has a `holding` flag that is set
//! between the head and the tail of a long note.
use crate::bytes::{i16_at, le_i16};
use crate::offsets::ChartOffsets;
use crate::parser::ParsingError;
use vstd::prelude::*;
use vstd::slice::slice_subrange;

verus! {

/// The first channel that carries notes.
pub const CHANNEL_MIN: i16 = 2;

/// The last channel that carries notes.
pub const CHANNEL_MAX: i16 = 8;

/// The number of channels that carry notes.
pub const NOTE_CHANNELS: usize = 7;

/// Size of a block's header in bytes.
pub const BLOCK_HEADER_SIZE: usize = 8;

/// Size of one sub-event in bytes.
pub const EVENT_SIZE: usize = 4;

/// Note type of the head of a long note.
pub const LONG_NOTE_HEAD: u8 = 2;

/// Note type of the tail of a long note.
pub const LONG_NOTE_TAIL: u8 = 3;

/// Whether sub-events on `channel` are notes.
pub open spec fn is_note_channel(channel: int) -> bool {
    CHANNEL_MIN <= channel <= CHANNEL_MAX
}

/// What a sounding sub-event (one whose value is not 0) of type
/// `note_type` does on a channel whose flag is `holding`: the notes it adds
/// and the flag after it.
///
/// | holding | type   | adds | flag after |
/// |---------|--------|------|------------|
/// | no      | 2      | 1    | set        |
/// | no      | 3      | 0    | clear      |
/// | no      | other  | 1    | clear      |
/// | yes     | 0 or 2 | 0    | set        |
/// | yes     | 3      | 1    | clear      |
/// | yes     | other  | 1    | set        |
pub open spec fn sounding(holding: bool, note_type: int) -> (int, bool) {
    if holding {
        if note_type == 0 || note_type == LONG_NOTE_HEAD {
            (0, true)
        } else if note_type == LONG_NOTE_TAIL {
            (1, false)
        } else {
            (1, true)
        }
    } else {
        if note_type == LONG_NOTE_HEAD {
            (1, true)
        } else if note_type == LONG_NOTE_TAIL {
            (0, false)
        } else {
            (1, false)
        }
    }
}

/// What one sub-event adds to the count of its channel: nothing when it is
/// silent (value 0), else what `sounding` says.
pub open spec fn count_delta(holding: bool, value: int, note_type: int) -> int {
    if value == 0 {
        0
    } else {
        sounding(holding, note_type).0
    }
}

/// The channel's flag after one sub-event: unchanged when it is silent
/// (value 0), else what `sounding` says.
pub open spec fn next_holding(holding: bool, value: int, note_type: int) -> bool {
    if value == 0 {
        holding
    } else {
        sounding(holding, note_type).1
    }
}

/// The value of sub-event `j` in a block's sub-event bytes.
pub open spec fn event_value(events: Seq<u8>, j: int) -> int {
    le_i16(events, EVENT_SIZE * j)
}

/// The note type of sub-event `j` in a block's sub-event bytes.
pub open spec fn event_type(events: Seq<u8>, j: int) -> int {
    events[EVENT_SIZE * j + 3] as int
}

/// The `holding` flag after the first `n` sub-events of `events`, starting
/// from `holding`.
pub open spec fn holding_after(events: Seq<u8>, n: nat, holding: bool) -> bool
    decreases n,
{
    if n == 0 {
        holding
    } else {
        let j = (n - 1) as nat;
        next_holding(
            holding_after(events, j, holding),
            event_value(events, j as int),
            event_type(events, j as int),
        )
    }
}

/// The notes counted over the first `n` sub-events of `events`, starting
/// from `holding`.
pub open spec fn notes_in(events: Seq<u8>, n: nat, holding: bool) -> int
    decreases n,
{
    if n == 0 {
        0
    } else {
        let j = (n - 1) as nat;
        notes_in(events, j, holding) + count_delta(
            holding_after(events, j, holding),
            event_value(events, j as int),
            event_type(events, j as int),
        )
    }
}

/// The number of sub-events that a block's count field announces: a
/// negative field announces none.
pub open spec fn announced(event_length: int) -> nat {
    if event_length > 0 {
        event_length as nat
    } else {
        0
    }
}

/// A run of `n` sub-events counts at least 0 and at most `n` notes.
pub proof fn lemma_notes_in_bounds(events: Seq<u8>, n: nat, holding: bool)
    ensures
        0 <= notes_in(events, n, holding) <= n,
    decreases n,
{
    if n > 0 {
        lemma_notes_in_bounds(events, (n - 1) as nat, holding);
    }
}

/// A silent sub-event adds nothing and leaves the flag as it is, whatever
/// its note type.
pub proof fn lemma_silent_event_changes_nothing(holding: bool, note_type: int)
    ensures
        count_delta(holding, 0, note_type) == 0,
        next_holding(holding, 0, note_type) == holding,
{
}

/// A run of silent sub-events adds nothing and leaves the flag as it is.
pub proof fn lemma_silent_run_changes_nothing(events: Seq<u8>, n: nat, holding: bool)
    requires
        forall|j: int| 0 <= j < n ==> event_value(events, j) == 0,
    ensures
        notes_in(events, n, holding) == 0,
        holding_after(events, n, holding) == holding,
    decreases n,
{
    if n > 0 {
        lemma_silent_run_changes_nothing(events, (n - 1) as nat, holding);
    }
}

/// On a channel that holds nothing, the head of a long note counts and its
/// tail counts again; after the tail the channel holds nothing. A second
/// tail then counts nothing.
pub proof fn lemma_long_note(head_value: int, tail_value: int)
    requires
        head_value != 0,
        tail_value != 0,
    ensures
        count_delta(false, head_value, LONG_NOTE_HEAD as int) == 1,
        next_holding(false, head_value, LONG_NOTE_HEAD as int),
        count_delta(true, tail_value, LONG_NOTE_TAIL as int) == 1,
        !next_holding(true, tail_value, LONG_NOTE_TAIL as int),
        count_delta(false, tail_value, LONG_NOTE_TAIL as int) == 0,
        !next_holding(false, tail_value, LONG_NOTE_TAIL as int),
{
}

/// Applies one sub-event to a channel's flag and returns what it adds to
/// the count.
pub fn apply_event(value: i16, note_type: u8, is_pressed: &mut bool) -> (delta: i32)
    ensures
        delta == count_delta(*old(is_pressed), value as int, note_type as int),
        *final(is_pressed) == next_holding(*old(is_pressed), value as int, note_type as int),
{
    if value == 0 {
        return 0;
    }
    let mut delta: i32 = 1;
    if *is_pressed {
        if note_type == 0 || note_type == LONG_NOTE_HEAD {
            delta = delta - 1;
        } else if note_type == LONG_NOTE_TAIL {
            *is_pressed = false;
        }
    } else {
        if note_type == LONG_NOTE_HEAD {
            *is_pressed = true;
        } else if note_type == LONG_NOTE_TAIL {
            delta = delta - 1;
        }
    }
    delta
}

/// Runs the sub-events of one block through its channel's flag and returns
/// the notes counted.
///
/// `event_data` starts at the block's first sub-event and must hold all
/// `event_length` of them.
pub fn process_channel_events(event_data: &[u8], event_length: i16, is_pressed: &mut bool) -> (count:
    i32)
    requires
        EVENT_SIZE * announced(event_length as int) <= event_data@.len(),
    ensures
        count == notes_in(event_data@, announced(event_length as int), *old(is_pressed)),
        *final(is_pressed) == holding_after(
            event_data@,
            announced(event_length as int),
            *old(is_pressed),
        ),
        0 <= count <= announced(event_length as int),
{
    let mut count: i32 = 0;
    let mut j: i16 = 0;
    while j < event_length
        invariant
            0 <= j <= announced(event_length as int),
            EVENT_SIZE * announced(event_length as int) <= event_data@.len(),
            count == notes_in(event_data@, j as nat, *old(is_pressed)),
            *is_pressed == holding_after(event_data@, j as nat, *old(is_pressed)),
            0 <= count <= j,
        decreases event_length - j,
    {
        let offset: usize = EVENT_SIZE * (j as usize);
        let value = i16_at(event_data, offset);
        let note_type: u8 = event_data[offset + 3];
        let delta = apply_event(value, note_type, is_pressed);
        count = count + delta;
        j = j + 1;
    }
    count
}

/// The channel flags at the start of a segment: nothing is held.
pub open spec fn nothing_held() -> Seq<bool> {
    Seq::new(NOTE_CHANNELS as nat, |k: int| false)
}

/// The channel of the block at `pos`.
pub open spec fn block_channel(segment: Seq<u8>, pos: int) -> int {
    le_i16(segment, pos + 4)
}

/// The sub-event count field of the block at `pos`.
pub open spec fn block_length(segment: Seq<u8>, pos: int) -> int {
    le_i16(segment, pos + 6)
}

/// Where the block after the one at `pos` starts.
pub open spec fn block_end(segment: Seq<u8>, pos: int) -> int {
    pos + BLOCK_HEADER_SIZE + EVENT_SIZE * block_length(segment, pos)
}

/// The bytes of the sub-events of the block at `pos`.
pub open spec fn block_events(segment: Seq<u8>, pos: int) -> Seq<u8> {
    segment.subrange(pos + BLOCK_HEADER_SIZE, block_end(segment, pos))
}

/// Whether the block at `pos` can be read: its header lies inside the
/// segment, its count field is not negative, and, on a note channel, its
/// sub-events lie inside the segment too.
pub open spec fn block_readable(segment: Seq<u8>, pos: int) -> bool {
    &&& pos + BLOCK_HEADER_SIZE <= segment.len()
    &&& block_length(segment, pos) >= 0
    &&& is_note_channel(block_channel(segment, pos)) ==> block_end(segment, pos) <= segment.len()
}

/// The notes that the block at `pos` adds, given the channel flags before it.
pub open spec fn block_notes(segment: Seq<u8>, pos: int, held: Seq<bool>) -> int {
    let channel = block_channel(segment, pos);
    if is_note_channel(channel) {
        notes_in(
            block_events(segment, pos),
            block_length(segment, pos) as nat,
            held[channel - CHANNEL_MIN],
        )
    } else {
        0
    }
}

/// The channel flags after the block at `pos`, given those before it.
pub open spec fn block_held(segment: Seq<u8>, pos: int, held: Seq<bool>) -> Seq<bool> {
    let channel = block_channel(segment, pos);
    if is_note_channel(channel) {
        held.update(
            channel - CHANNEL_MIN,
            holding_after(
                block_events(segment, pos),
                block_length(segment, pos) as nat,
                held[channel - CHANNEL_MIN],
            ),
        )
    } else {
        held
    }
}

/// The count at the end of the segment when the scan stands at `pos` with
/// `count` notes so far and the channel flags `held`; nothing when a block
/// on the way cannot be read.
///
/// The scan ends where `pos` has reached or passed the end of the segment.
pub open spec fn scan_from(segment: Seq<u8>, pos: int, held: Seq<bool>, count: int) -> Option<int>
    decreases
        (if pos < segment.len() {
            segment.len() - pos
        } else {
            0
        }),
{
    if pos < 0 || pos >= segment.len() {
        Some(count)
    } else if !block_readable(segment, pos) {
        None
    } else {
        scan_from(
            segment,
            block_end(segment, pos),
            block_held(segment, pos, held),
            count + block_notes(segment, pos, held),
        )
    }
}

/// The playable notes of a segment, or nothing when one of its blocks
/// cannot be read.
pub open spec fn segment_notes(segment: Seq<u8>) -> Option<int> {
    scan_from(segment, 0, nothing_held(), 0)
}

/// The playable notes in the byte range `offset` of `file`, or nothing when
/// the range does not lie inside the file or one of its blocks cannot be
/// read.
pub open spec fn notes_in_chart(file: Seq<u8>, offset: ChartOffsets) -> Option<int> {
    if offset.within(file.len()) {
        segment_notes(file.subrange(offset.start as int, offset.end as int))
    } else {
        None
    }
}

/// A block on a channel that carries no notes adds nothing and leaves
/// every flag as it is, whatever its sub-events hold.
pub proof fn lemma_other_channel_adds_nothing(segment: Seq<u8>, pos: int, held: Seq<bool>)
    requires
        !is_note_channel(block_channel(segment, pos)),
    ensures
        block_notes(segment, pos, held) == 0,
        block_held(segment, pos, held) == held,
{
}

/// A block leaves the flag of every channel but its own as it is.
pub proof fn lemma_block_touches_one_flag(segment: Seq<u8>, pos: int, held: Seq<bool>, k: int)
    requires
        held.len() == NOTE_CHANNELS,
        0 <= k < NOTE_CHANNELS,
        k != block_channel(segment, pos) - CHANNEL_MIN,
    ensures
        block_held(segment, pos, held).len() == NOTE_CHANNELS,
        block_held(segment, pos, held)[k] == held[k],
{
}

/// The scan passes over a readable block on a channel that carries no
/// notes as if it began behind it.
pub proof fn lemma_scan_skips_other_channel(
    segment: Seq<u8>,
    pos: int,
    held: Seq<bool>,
    count: int,
)
    requires
        0 <= pos < segment.len(),
        block_readable(segment, pos),
        !is_note_channel(block_channel(segment, pos)),
    ensures
        scan_from(segment, pos, held, count) == scan_from(
            segment,
            block_end(segment, pos),
            held,
            count,
        ),
{
}

/// From `pos` on, the scan reads no byte before `pos`: two segments that
/// agree from there on are scanned alike.
pub proof fn lemma_scan_reads_forward(
    a: Seq<u8>,
    b: Seq<u8>,
    pos: int,
    held: Seq<bool>,
    count: int,
)
    requires
        a.len() == b.len(),
        0 <= pos,
        forall|i: int| pos <= i < a.len() ==> a[i] == b[i],
    ensures
        scan_from(a, pos, held, count) == scan_from(b, pos, held, count),
    decreases
        (if pos < a.len() {
            a.len() - pos
        } else {
            0
        }),
{
    if pos < a.len() && pos + BLOCK_HEADER_SIZE <= a.len() {
        assert(block_channel(a, pos) == block_channel(b, pos));
        assert(block_length(a, pos) == block_length(b, pos));
        if block_readable(a, pos) {
            if is_note_channel(block_channel(a, pos)) {
                assert(block_events(a, pos) =~= block_events(b, pos));
            }
            lemma_scan_reads_forward(
                a,
                b,
                block_end(a, pos),
                block_held(a, pos, held),
                count + block_notes(a, pos, held),
            );
        }
    }
}

/// What the sub-events of a block on a channel that carries no notes hold
/// has no part in the count: two segments that agree from the block's
/// header on, but for the block's sub-events, are scanned alike from there.
pub proof fn lemma_other_channel_contents_do_not_matter(
    a: Seq<u8>,
    b: Seq<u8>,
    pos: int,
    held: Seq<bool>,
    count: int,
)
    requires
        a.len() == b.len(),
        0 <= pos < a.len(),
        block_readable(a, pos),
        !is_note_channel(block_channel(a, pos)),
        forall|i: int| pos <= i < pos + BLOCK_HEADER_SIZE ==> a[i] == b[i],
        forall|i: int| block_end(a, pos) <= i < a.len() ==> a[i] == b[i],
    ensures
        scan_from(a, pos, held, count) == scan_from(b, pos, held, count),
{
    assert(block_channel(a, pos) == block_channel(b, pos));
    assert(block_length(a, pos) == block_length(b, pos));
    lemma_scan_reads_forward(a, b, block_end(a, pos), held, count);
}

/// The scan never takes a note back, and it counts at most one note for
/// every four bytes that it passes.
pub proof fn lemma_scan_bounds(segment: Seq<u8>, pos: int, held: Seq<bool>, count: int)
    requires
        0 <= pos <= segment.len(),
    ensures
        scan_from(segment, pos, held, count) matches Some(total) ==> count <= total && 4 * (total
            - count) <= segment.len() - pos,
    decreases segment.len() - pos,
{
    if pos < segment.len() && block_readable(segment, pos) {
        let end = block_end(segment, pos);
        if is_note_channel(block_channel(segment, pos)) {
            lemma_notes_in_bounds(
                block_events(segment, pos),
                block_length(segment, pos) as nat,
                held[block_channel(segment, pos) - CHANNEL_MIN],
            );
        }
        if end <= segment.len() {
            lemma_scan_bounds(
                segment,
                end,
                block_held(segment, pos, held),
                count + block_notes(segment, pos, held),
            );
        }
    }
}

/// The count of a segment is never negative, and it is at most a quarter
/// of the segment's length.
pub proof fn lemma_segment_notes_bounds(segment: Seq<u8>)
    ensures
        segment_notes(segment) matches Some(total) ==> 0 <= total && 4 * total <= segment.len(),
{
    lemma_scan_bounds(segment, 0, nothing_held(), 0);
}

/// The number of blocks that the scan reads from `pos` on.
pub open spec fn blocks_read(segment: Seq<u8>, pos: int) -> nat
    decreases
        (if pos < segment.len() {
            segment.len() - pos
        } else {
            0
        }),
{
    if pos < 0 || pos >= segment.len() || !block_readable(segment, pos) {
        0
    } else {
        1 + blocks_read(segment, block_end(segment, pos))
    }
}

/// The scan reads at most one block for every eight bytes that lie before
/// it: each block that it reads has its header inside the segment.
pub proof fn lemma_blocks_read_bound(segment: Seq<u8>, pos: int)
    requires
        0 <= pos <= segment.len(),
    ensures
        8 * blocks_read(segment, pos) <= segment.len() - pos,
    decreases segment.len() - pos,
{
    if pos < segment.len() && block_readable(segment, pos) {
        let end = block_end(segment, pos);
        if end <= segment.len() {
            lemma_blocks_read_bound(segment, end);
        }
    }
}

/// A segment without a byte holds no note.
pub proof fn lemma_empty_segment_holds_nothing(segment: Seq<u8>)
    requires
        segment.len() == 0,
    ensures
        segment_notes(segment) == Some(0int),
{
}

/// Counts the playable notes of the segment `offset` of the file `data`.
///
/// Fails with `FileError` when the segment does not lie inside the file,
/// when a block's header is cut off by the end of the segment, when a block
/// announces a negative number of sub-events, and when the sub-events of a
/// block on a note channel are cut off by the end of the segment. A block
/// on another channel is passed over unread, wherever it ends.
pub fn count_notes_in_chart(data: &[u8], offset: &ChartOffsets) -> (r: Result<i32, ParsingError>)
    ensures
        match r {
            Ok(count) => notes_in_chart(data@, *offset) == Some(count as int) && count >= 0,
            Err(e) => e == ParsingError::FileError && notes_in_chart(data@, *offset).is_none(),
        },
{
    if offset.start < 0 || offset.end < offset.start || offset.end as usize > data.len() {
        return Err(ParsingError::FileError);
    }
    let segment = slice_subrange(data, offset.start as usize, offset.end as usize);
    let size: usize = segment.len();
    let mut held: [bool; NOTE_CHANNELS] = [false; NOTE_CHANNELS];
    let mut count: i32 = 0;
    let mut pos: usize = 0;
    assert(held@ =~= nothing_held());
    while pos < size
        invariant
            offset.within(data@.len()),
            segment@ == data@.subrange(offset.start as int, offset.end as int),
            size == segment@.len(),
            size <= i32::MAX,
            0 <= count,
            4 * count <= pos,
            held@.len() == NOTE_CHANNELS,
            scan_from(segment@, pos as int, held@, count as int) == segment_notes(segment@),
        decreases
            (if pos < size {
                size - pos
            } else {
                0
            }),
    {
        if size - pos < BLOCK_HEADER_SIZE {
            return Err(ParsingError::FileError);
        }
        let channel = i16_at(segment, pos + 4);
        let event_length = i16_at(segment, pos + 6);
        if event_length < 0 {
            return Err(ParsingError::FileError);
        }
        let ghost before = held@;
        let next: usize = pos + BLOCK_HEADER_SIZE + EVENT_SIZE * (event_length as usize);
        if CHANNEL_MIN <= channel && channel <= CHANNEL_MAX {
            if next > size {
                return Err(ParsingError::FileError);
            }
            let events = slice_subrange(segment, pos + BLOCK_HEADER_SIZE, next);
            let k: usize = (channel - CHANNEL_MIN) as usize;
            let mut pressed: bool = held[k];
            let notes = process_channel_events(events, event_length, &mut pressed);
            held[k] = pressed;
            count = count + notes;
        }
        assert(held@ =~= block_held(segment@, pos as int, before));
        pos = next;
    }
    Ok(count)
}

} // verus!

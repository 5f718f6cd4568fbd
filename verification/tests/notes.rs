use ojn_charts::notes::{
    apply_event, count_notes_in_chart, process_channel_events, CHANNEL_MAX, CHANNEL_MIN,
};
use ojn_charts::offsets::ChartOffsets;
use ojn_charts::parser::ParsingError;

fn events_bytes(events: &[(i16, u8)]) -> Vec<u8> {
    let mut out = Vec::new();
    for (value, note_type) in events {
        out.extend_from_slice(&value.to_le_bytes());
        out.push(0xee);
        out.push(*note_type);
    }
    out
}

fn block_with_count(channel: i16, count: i16, events: &[(i16, u8)]) -> Vec<u8> {
    let mut out = vec![0xaa, 0xbb, 0xcc, 0xdd];
    out.extend_from_slice(&channel.to_le_bytes());
    out.extend_from_slice(&count.to_le_bytes());
    out.extend_from_slice(&events_bytes(events));
    out
}

fn block(channel: i16, events: &[(i16, u8)]) -> Vec<u8> {
    block_with_count(channel, events.len() as i16, events)
}

fn count_segment(segment: &[u8]) -> Result<i32, ParsingError> {
    count_notes_in_chart(segment, &ChartOffsets { start: 0, end: segment.len() as i32 })
}

fn step(holding: bool, value: i16, note_type: u8) -> (i32, bool) {
    let mut flag = holding;
    let delta = apply_event(value, note_type, &mut flag);
    (delta, flag)
}

#[test]
fn note_channels_are_2_to_8() {
    assert_eq!(CHANNEL_MIN, 2);
    assert_eq!(CHANNEL_MAX, 8);
}

#[test]
fn head_on_a_free_channel_counts_and_holds() {
    assert_eq!(step(false, 5, 2), (1, true));
}

#[test]
fn tail_on_a_free_channel_is_dropped() {
    assert_eq!(step(false, 5, 3), (0, false));
}

#[test]
fn plain_note_on_a_free_channel_counts() {
    assert_eq!(step(false, 5, 0), (1, false));
    assert_eq!(step(false, 5, 1), (1, false));
    assert_eq!(step(false, 5, 4), (1, false));
    assert_eq!(step(false, 5, 255), (1, false));
}

#[test]
fn repeat_on_a_held_channel_is_dropped() {
    assert_eq!(step(true, 5, 0), (0, true));
    assert_eq!(step(true, 5, 2), (0, true));
}

#[test]
fn tail_on_a_held_channel_counts_and_releases() {
    assert_eq!(step(true, 5, 3), (1, false));
}

#[test]
fn other_type_on_a_held_channel_counts_and_keeps_holding() {
    assert_eq!(step(true, 5, 1), (1, true));
    assert_eq!(step(true, 5, 4), (1, true));
    assert_eq!(step(true, 5, 255), (1, true));
}

#[test]
fn silent_event_changes_nothing_for_any_type() {
    for note_type in 0..=255u8 {
        assert_eq!(step(false, 0, note_type), (0, false));
        assert_eq!(step(true, 0, note_type), (0, true));
    }
}

#[test]
fn negative_value_sounds() {
    assert_eq!(step(false, -1, 2), (1, true));
    assert_eq!(step(true, i16::MIN, 3), (1, false));
}

#[test]
fn run_of_events_on_one_channel() {
    let events = events_bytes(
        &[(5, 2), (5, 0), (5, 2), (5, 3), (5, 3), (0, 2), (7, 1)],
    );
    let mut flag = false;
    assert_eq!(process_channel_events(&events, 7, &mut flag), 3);
    assert!(!flag);
}

#[test]
fn run_can_end_holding() {
    let events = events_bytes(&[(1, 1), (1, 2)]);
    let mut flag = false;
    assert_eq!(process_channel_events(&events, 2, &mut flag), 2);
    assert!(flag);
}

#[test]
fn run_starts_from_the_flag_it_is_given() {
    let events = events_bytes(&[(1, 0), (1, 3), (1, 0)]);
    let mut flag = true;
    assert_eq!(process_channel_events(&events, 3, &mut flag), 2);
    assert!(!flag);
    let mut flag = false;
    assert_eq!(process_channel_events(&events, 3, &mut flag), 2);
    assert!(!flag);
}

#[test]
fn run_reads_only_the_events_announced() {
    let events = events_bytes(&[(1, 1), (1, 1), (1, 2)]);
    let mut flag = false;
    assert_eq!(process_channel_events(&events, 2, &mut flag), 2);
    assert!(!flag);
}

#[test]
fn run_of_no_events_counts_nothing() {
    let mut flag = true;
    assert_eq!(process_channel_events(&[], 0, &mut flag), 0);
    assert!(flag);
}

#[test]
fn negative_announcement_reads_nothing() {
    let events = events_bytes(&[(1, 2)]);
    let mut flag = false;
    assert_eq!(process_channel_events(&events, -1, &mut flag), 0);
    assert!(!flag);
    assert_eq!(process_channel_events(&[], i16::MIN, &mut flag), 0);
    assert!(!flag);
}

#[test]
fn unused_event_byte_is_not_read() {
    let a = [5, 0, 0x00, 2, 5, 0, 0x00, 3];
    let b = [5, 0, 0xff, 2, 5, 0, 0x7f, 3];
    let mut fa = false;
    let mut fb = false;
    assert_eq!(process_channel_events(&a, 2, &mut fa), process_channel_events(&b, 2, &mut fb));
    assert_eq!(fa, fb);
}

#[test]
fn value_is_16_bits_wide() {
    let low_byte_zero = [0x00, 0x01, 0, 1];
    let mut flag = false;
    assert_eq!(process_channel_events(&low_byte_zero, 1, &mut flag), 1);
}

#[test]
fn empty_segment_has_no_notes() {
    assert_eq!(count_segment(&[]), Ok(0));
}

#[test]
fn head_then_tail_in_a_later_block() {
    let mut segment = block(2, &[(5, 2)]);
    segment.extend(block(2, &[(5, 3)]));
    assert_eq!(count_segment(&segment), Ok(2));
}

#[test]
fn head_ticks_and_tail_of_one_long_note() {
    let mut segment = block(4, &[(5, 2), (5, 0), (5, 2)]);
    segment.extend(block(4, &[(5, 0), (5, 3)]));
    assert_eq!(count_segment(&segment), Ok(2));
}

#[test]
fn orphan_tail_counts_nothing() {
    let segment = block(2, &[(5, 3)]);
    assert_eq!(count_segment(&segment), Ok(0));
}

#[test]
fn channels_hold_independently() {
    let mut segment = block(2, &[(5, 2)]);
    segment.extend(block(3, &[(5, 3)]));
    segment.extend(block(3, &[(5, 0)]));
    segment.extend(block(2, &[(5, 0)]));
    assert_eq!(count_segment(&segment), Ok(2));
}

#[test]
fn every_note_channel_has_its_own_flag() {
    let mut segment = Vec::new();
    for channel in 2..=8 {
        segment.extend(block(channel, &[(1, 2)]));
    }
    for channel in 2..=8 {
        segment.extend(block(channel, &[(1, 2)]));
    }
    for channel in 2..=8 {
        segment.extend(block(channel, &[(1, 3)]));
    }
    assert_eq!(count_segment(&segment), Ok(14));
}

#[test]
fn first_and_last_note_channel_count() {
    assert_eq!(count_segment(&block(2, &[(1, 1)])), Ok(1));
    assert_eq!(count_segment(&block(8, &[(1, 1)])), Ok(1));
}

#[test]
fn other_channels_count_nothing() {
    for channel in [1, 9, 0, -1, 10, 258, i16::MAX, i16::MIN] {
        let segment = block(channel, &[(5, 2), (5, 1), (5, 3), (7, 0)]);
        assert_eq!(count_segment(&segment), Ok(0));
    }
}

#[test]
fn other_channel_does_not_touch_the_flags() {
    let mut segment = block(2, &[(5, 2)]);
    segment.extend(block(1, &[(5, 3), (5, 3)]));
    segment.extend(block(9, &[(5, 3)]));
    segment.extend(block(2, &[(5, 0)]));
    segment.extend(block(2, &[(5, 3)]));
    assert_eq!(count_segment(&segment), Ok(2));
}

#[test]
fn other_channel_is_passed_over_whatever_it_holds() {
    let mut a = block(2, &[(1, 1)]);
    a.extend(block(1, &[(1, 1), (2, 2), (3, 3)]));
    a.extend(block(3, &[(1, 1)]));
    let mut b = block(2, &[(1, 1)]);
    b.extend(block(1, &[(0, 0), (0, 0), (0, 0)]));
    b.extend(block(3, &[(1, 1)]));
    assert_eq!(count_segment(&a), Ok(2));
    assert_eq!(count_segment(&b), Ok(2));
}

#[test]
fn block_without_events_is_passed_over() {
    let mut segment = block(2, &[]);
    segment.extend(block(5, &[(1, 1)]));
    segment.extend(block(20, &[]));
    assert_eq!(count_segment(&segment), Ok(1));
}

#[test]
fn unused_header_bytes_are_not_read() {
    let mut a = block(2, &[(1, 1)]);
    let mut b = a.clone();
    a[0..4].copy_from_slice(&[0, 0, 0, 0]);
    b[0..4].copy_from_slice(&[0xff, 0xff, 0xff, 0xff]);
    assert_eq!(count_segment(&a), Ok(1));
    assert_eq!(count_segment(&b), Ok(1));
}

#[test]
fn flags_are_reset_for_every_segment() {
    let first = block(2, &[(5, 2)]);
    let second = block(2, &[(5, 3)]);
    let mut data = first.clone();
    data.extend(second.clone());
    let cut = first.len() as i32;
    let end = data.len() as i32;
    assert_eq!(count_notes_in_chart(&data, &ChartOffsets { start: 0, end: cut }), Ok(1));
    assert_eq!(count_notes_in_chart(&data, &ChartOffsets { start: cut, end }), Ok(0));
    assert_eq!(count_notes_in_chart(&data, &ChartOffsets { start: 0, end }), Ok(2));
}

#[test]
fn segment_is_cut_out_of_the_file() {
    let mut data = vec![0x11u8; 40];
    let segment = block(6, &[(1, 1), (1, 1)]);
    data.extend(segment.clone());
    data.extend([0x22u8; 13]);
    let offsets = ChartOffsets { start: 40, end: 40 + segment.len() as i32 };
    assert_eq!(count_notes_in_chart(&data, &offsets), Ok(2));
}

#[test]
fn empty_segment_anywhere_inside_the_file_has_no_notes() {
    let data = [0xffu8; 20];
    assert_eq!(count_notes_in_chart(&data, &ChartOffsets { start: 0, end: 0 }), Ok(0));
    assert_eq!(count_notes_in_chart(&data, &ChartOffsets { start: 7, end: 7 }), Ok(0));
    assert_eq!(count_notes_in_chart(&data, &ChartOffsets { start: 20, end: 20 }), Ok(0));
}

#[test]
fn segment_outside_the_file_is_a_file_error() {
    let data = [0u8; 20];
    let outside = [
        ChartOffsets { start: -1, end: 10 },
        ChartOffsets { start: 10, end: 9 },
        ChartOffsets { start: 0, end: 21 },
        ChartOffsets { start: 21, end: 21 },
        ChartOffsets { start: i32::MIN, end: i32::MAX },
        ChartOffsets { start: i32::MAX, end: i32::MIN },
        ChartOffsets { start: -5, end: -5 },
    ];
    for offsets in outside {
        assert_eq!(count_notes_in_chart(&data, &offsets), Err(ParsingError::FileError));
    }
}

#[test]
fn block_header_cut_off_is_a_file_error() {
    let segment = block(2, &[(1, 1)]);
    for len in 1..8 {
        assert_eq!(count_segment(&segment[..len]), Err(ParsingError::FileError));
    }
    let mut two = segment.clone();
    two.extend(&segment[..7]);
    assert_eq!(count_segment(&two), Err(ParsingError::FileError));
}

#[test]
fn events_cut_off_on_a_note_channel_are_a_file_error() {
    let segment = block(2, &[(1, 1), (1, 1)]);
    for len in 8..segment.len() {
        assert_eq!(count_segment(&segment[..len]), Err(ParsingError::FileError));
    }
    assert_eq!(count_segment(&segment), Ok(2));
}

#[test]
fn block_on_another_channel_may_pass_the_end() {
    let mut segment = block(2, &[(1, 1)]);
    segment.extend(block_with_count(1, 100, &[(1, 1)]));
    assert_eq!(count_segment(&segment), Ok(1));
    let alone = block_with_count(0, i16::MAX, &[]);
    assert_eq!(count_segment(&alone), Ok(0));
}

#[test]
fn negative_event_count_is_a_file_error() {
    for channel in [1, 2, 8, 9] {
        for count in [-1, -2, -3, i16::MIN] {
            let segment = block_with_count(channel, count, &[(1, 1), (1, 1)]);
            assert_eq!(count_segment(&segment), Err(ParsingError::FileError));
        }
    }
}

#[test]
fn error_behind_counted_notes_is_still_an_error() {
    let mut segment = block(2, &[(1, 1), (1, 1)]);
    segment.extend(block_with_count(3, 2, &[(1, 1)]));
    assert_eq!(count_segment(&segment), Err(ParsingError::FileError));
}

#[test]
fn block_of_many_events_is_counted() {
    let events: Vec<(i16, u8)> = (0..9000).map(|_| (1i16, 1u8)).collect();
    let mut segment = block(5, &events);
    segment.extend(block(5, &[(1, 1)]));
    assert_eq!(count_segment(&segment), Ok(9001));
}

#[test]
fn block_of_the_most_events_is_counted() {
    let events: Vec<(i16, u8)> = (0..i16::MAX).map(|i| (i, 4u8)).collect();
    let segment = block(8, &events);
    assert_eq!(count_segment(&segment), Ok(i16::MAX as i32 - 1));
}

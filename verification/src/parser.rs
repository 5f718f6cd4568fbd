//! The chart record and its assembly from the bytes of one file.
use crate::header::{has_signature, header_of, read_header, texts_of, HEADER_SIZE};
use crate::notes::{count_notes_in_chart, lemma_segment_notes_bounds, segment_notes};
use crate::offsets::{read_chart_offsets, segment_end, segment_start, table_readable};
use vstd::prelude::*;

verus! {

/// Why a file could not be decoded.
#[derive(Debug, Clone, Copy, PartialEq, Eq, Structural)]
pub enum ParsingError {
    /// Bytes 4..8 of the header are not the signature `"ojn\0"`.
    InvalidSignature,
    /// A read reached outside the bytes that are there.
    FileError,
}

impl ParsingError {
    /// The text that reports the error.
    pub open spec fn message_text(self) -> Seq<char> {
        match self {
            ParsingError::InvalidSignature => "Error caused when open file: invalid signature"@,
            ParsingError::FileError => "Error caused when read file: failed to fill whole buffer"@,
        }
    }

    /// The text that reports the error.
    pub fn message(&self) -> (text: String)
        ensures
            text@ == self.message_text(),
    {
        match self {
            ParsingError::InvalidSignature => {
                "Error caused when open file: invalid signature".to_owned()
            },
            ParsingError::FileError => {
                "Error caused when read file: failed to fill whole buffer".to_owned()
            },
        }
    }
}

/// What one chart file tells: the header's fields and the playable notes of
/// each difficulty. `level` and `note_count` are indexed alike, easiest
/// difficulty first.
#[derive(Debug)]
pub struct ChartInfo {
    pub chart_id: i32,
    pub title: String,
    pub artist: String,
    pub chart_maker: String,
    /// The tempo as the bits of an IEEE-754 single-precision number.
    pub bpm_bits: u32,
    pub level: [i16; 3],
    pub note_count: [i32; 3],
}

/// A chart record as plain values.
pub struct ChartView {
    pub chart_id: int,
    pub title: Seq<char>,
    pub artist: Seq<char>,
    pub chart_maker: Seq<char>,
    pub bpm_bits: int,
    pub level: Seq<int>,
    pub note_count: Seq<int>,
}

impl View for ChartInfo {
    type V = ChartView;

    open spec fn view(&self) -> ChartView {
        ChartView {
            chart_id: self.chart_id as int,
            title: self.title@,
            artist: self.artist@,
            chart_maker: self.chart_maker@,
            bpm_bits: self.bpm_bits as int,
            level: Seq::new(3, |i: int| self.level[i] as int),
            note_count: counts_view(self.note_count),
        }
    }
}

/// Three counts as a sequence of integers.
pub open spec fn counts_view(counts: [i32; 3]) -> Seq<int> {
    Seq::new(3, |i: int| counts[i] as int)
}

/// The playable notes of segment `i` before the fallback, or nothing when
/// the segment cannot be read: when it does not lie inside the file, or
/// when one of its blocks cannot be read.
pub open spec fn raw_count(data: Seq<u8>, i: int) -> Option<int> {
    let start = segment_start(data, i);
    let end = segment_end(data, i);
    if 0 <= start <= end <= data.len() {
        segment_notes(data.subrange(start, end))
    } else {
        None
    }
}

/// The counts after the fallback: where the first two are both 0, each
/// takes the third.
pub open spec fn with_fallback(counts: Seq<int>) -> Seq<int> {
    if counts[0] == 0 && counts[1] == 0 {
        seq![counts[2], counts[2], counts[2]]
    } else {
        counts
    }
}

/// The note counts of a file, or why it has none: the table of boundary
/// markers or one of the segments cannot be read.
pub open spec fn note_counts_of(data: Seq<u8>) -> Result<Seq<int>, ParsingError> {
    if table_readable(data) && raw_count(data, 0) is Some && raw_count(data, 1) is Some
        && raw_count(data, 2) is Some {
        Ok(
            with_fallback(
                seq![
                    raw_count(data, 0).unwrap(),
                    raw_count(data, 1).unwrap(),
                    raw_count(data, 2).unwrap(),
                ],
            ),
        )
    } else {
        Err(ParsingError::FileError)
    }
}

/// The chart record of a file, or why it has none. The header is read
/// first, so its error comes first.
pub open spec fn chart_of(data: Seq<u8>) -> Result<ChartView, ParsingError> {
    match header_of(data) {
        Err(e) => Err(e),
        Ok(header) => match note_counts_of(data) {
            Err(e) => Err(e),
            Ok(counts) => Ok(
                ChartView {
                    chart_id: header.chart_id,
                    title: header.title,
                    artist: header.artist,
                    chart_maker: header.chart_maker,
                    bpm_bits: header.bpm_bits,
                    level: header.level,
                    note_count: counts,
                },
            ),
        },
    }
}

/// A file whose header lacks the signature is refused for its signature,
/// whatever else it holds.
pub proof fn lemma_bad_signature_fails(data: Seq<u8>)
    requires
        data.len() >= HEADER_SIZE,
        !has_signature(data),
    ensures
        chart_of(data) == Err::<ChartView, ParsingError>(ParsingError::InvalidSignature),
{
}

/// A file whose three segments are empty has no notes, before the fallback
/// and after it.
pub proof fn lemma_empty_segments_count_nothing(data: Seq<u8>)
    requires
        data.len() >= HEADER_SIZE,
        forall|i: int|
            0 <= i < 3 ==> 0 <= #[trigger] segment_start(data, i) <= data.len() && segment_end(
                data,
                i,
            ) == segment_start(data, i),
    ensures
        note_counts_of(data) == Ok::<Seq<int>, ParsingError>(seq![0int, 0int, 0int]),
{
    assert forall|i: int| 0 <= i < 3 implies raw_count(data, i) == Some(0int) by {
        let start = segment_start(data, i);
        assert(data.subrange(start, start).len() == 0);
    }
    assert(with_fallback(seq![0int, 0int, 0int]) =~= seq![0int, 0int, 0int]);
}

/// The note counts of a chart are three, and none is negative.
pub proof fn lemma_note_counts_are_not_negative(data: Seq<u8>)
    ensures
        note_counts_of(data) matches Ok(counts) ==> counts.len() == 3 && forall|i: int|
            0 <= i < 3 ==> counts[i] >= 0,
{
    if note_counts_of(data) is Ok {
        assert forall|i: int| 0 <= i < 3 implies raw_count(data, i).unwrap() >= 0 by {
            lemma_segment_notes_bounds(
                data.subrange(segment_start(data, i), segment_end(data, i)),
            );
        }
    }
}

/// Where only the last difficulty has notes, every difficulty shows its
/// count.
pub proof fn lemma_fallback_copies_last(last: int)
    ensures
        with_fallback(seq![0int, 0int, last]) == seq![last, last, last],
{
}

/// Where one of the first two difficulties has notes, the fallback changes
/// nothing.
pub proof fn lemma_fallback_keeps_counts(counts: Seq<int>)
    requires
        counts[0] != 0 || counts[1] != 0,
    ensures
        with_fallback(counts) == counts,
{
}

/// Applies the fallback to the three counts: where the first two are both
/// 0, each takes the third; else nothing changes.
pub fn apply_fallback(counts: [i32; 3]) -> (r: [i32; 3])
    ensures
        counts_view(r) == with_fallback(counts_view(counts)),
        counts[0] == 0 && counts[1] == 0 ==> r[0] == counts[2] && r[1] == counts[2] && r[2]
            == counts[2],
        !(counts[0] == 0 && counts[1] == 0) ==> r == counts,
{
    let r = if counts[0] == 0 && counts[1] == 0 {
        [counts[2], counts[2], counts[2]]
    } else {
        counts
    };
    assert(counts_view(r) =~= with_fallback(counts_view(counts)));
    r
}

/// Counts the playable notes of each of the three segments of a file and
/// applies the fallback.
pub fn parse_exact_note_count(data: &[u8]) -> (r: Result<[i32; 3], ParsingError>)
    ensures
        match r {
            Ok(counts) => note_counts_of(data@) == Ok::<Seq<int>, ParsingError>(
                counts_view(counts),
            ),
            Err(e) => note_counts_of(data@) == Err::<Seq<int>, ParsingError>(e),
        },
{
    let offsets = read_chart_offsets(data)?;
    let mut note_count: [i32; 3] = [0; 3];
    let mut i: usize = 0;
    while i < 3
        invariant
            i <= 3,
            table_readable(data@),
            forall|k: int|
                0 <= k < 3 ==> offsets[k].start == segment_start(data@, k) && offsets[k].end
                    == segment_end(data@, k),
            forall|k: int| 0 <= k < i ==> raw_count(data@, k) == Some(note_count[k] as int),
        decreases 3 - i,
    {
        let count = count_notes_in_chart(data, &offsets[i])?;
        note_count[i] = count;
        i = i + 1;
    }
    assert(counts_view(note_count) =~= seq![
        raw_count(data@, 0).unwrap(),
        raw_count(data@, 1).unwrap(),
        raw_count(data@, 2).unwrap(),
    ]);
    Ok(apply_fallback(note_count))
}

/// Decodes the chart file whose bytes are `data`.
///
/// Fails with `FileError` when the file is shorter than the header, with
/// `InvalidSignature` when the header lacks the signature, and with
/// `FileError` when a segment cannot be read.
pub fn parse_chart_info(data: &[u8]) -> (r: Result<ChartInfo, ParsingError>)
    ensures
        match r {
            Ok(chart) => {
                &&& chart_of(data@) == Ok::<ChartView, ParsingError>(chart@)
                &&& texts_of(chart@.title, chart@.artist, chart@.chart_maker, data@)
            },
            Err(e) => chart_of(data@) == Err::<ChartView, ParsingError>(e),
        },
{
    let header = read_header(data)?;
    let note_count = parse_exact_note_count(data)?;
    let chart = ChartInfo {
        chart_id: header.chart_id,
        title: header.title,
        artist: header.artist,
        chart_maker: header.chart_maker,
        bpm_bits: header.bpm_bits,
        level: header.level,
        note_count,
    };
    assert(chart@.level =~= header@.level);
    Ok(chart)
}

} // verus!

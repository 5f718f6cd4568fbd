//! The fixed header at the start of a chart file.
use crate::bytes::{
    i16_at, i16_le_bytes, i32_at, i32_le_bytes, le_i16, le_i32, le_u32, lemma_le_i16_round_trip,
    lemma_le_i32_round_trip, lemma_le_u32_round_trip, u32_at, u32_le_bytes,
};
use crate::parser::ParsingError;
use crate::text::{decode_euc_kr, field_text, is_text_of};
use vstd::prelude::*;
use vstd::slice::slice_subrange;

verus! {

/// Size of the header in bytes.
pub const HEADER_SIZE: usize = 300;

/// What the header tells of a chart.
#[derive(Debug)]
pub struct HeaderInfo {
    pub chart_id: i32,
    pub title: String,
    pub artist: String,
    pub chart_maker: String,
    /// The tempo as the bits of an IEEE-754 single-precision number.
    pub bpm_bits: u32,
    /// The level of each difficulty, easiest first.
    pub level: [i16; 3],
}

/// A header as plain values.
pub struct HeaderView {
    pub chart_id: int,
    pub title: Seq<char>,
    pub artist: Seq<char>,
    pub chart_maker: Seq<char>,
    pub bpm_bits: int,
    pub level: Seq<int>,
}

impl View for HeaderInfo {
    type V = HeaderView;

    open spec fn view(&self) -> HeaderView {
        HeaderView {
            chart_id: self.chart_id as int,
            title: self.title@,
            artist: self.artist@,
            chart_maker: self.chart_maker@,
            bpm_bits: self.bpm_bits as int,
            level: Seq::new(3, |i: int| self.level[i] as int),
        }
    }
}

/// Whether bytes 4..8 of `data` are the signature `"ojn\0"`.
pub open spec fn has_signature(data: Seq<u8>) -> bool {
    data[4] == 0x6f && data[5] == 0x6a && data[6] == 0x6e && data[7] == 0
}

/// The fields of the header that `data` starts with.
///
/// | offset | size | field                                      |
/// |--------|------|--------------------------------------------|
/// | 0      | 4    | chart identifier, signed                   |
/// | 16     | 4    | tempo, bits of a single-precision number   |
/// | 20     | 6    | three levels, signed 16-bit each           |
/// | 108    | 64   | title                                      |
/// | 172    | 32   | artist                                     |
/// | 204    | 32   | chart author                               |
///
/// All integers are little-endian.
pub open spec fn header_fields(data: Seq<u8>) -> HeaderView {
    HeaderView {
        chart_id: le_i32(data, 0),
        title: field_text(data.subrange(108, 172)),
        artist: field_text(data.subrange(172, 204)),
        chart_maker: field_text(data.subrange(204, 236)),
        bpm_bits: le_u32(data, 16),
        level: Seq::new(3, |i: int| le_i16(data, 20 + 2 * i)),
    }
}

/// Whether the three texts are those of the text fields of the header that
/// `data` starts with.
pub open spec fn texts_of(
    title: Seq<char>,
    artist: Seq<char>,
    chart_maker: Seq<char>,
    data: Seq<u8>,
) -> bool {
    &&& is_text_of(title, data.subrange(108, 172))
    &&& is_text_of(artist, data.subrange(172, 204))
    &&& is_text_of(chart_maker, data.subrange(204, 236))
}

/// The header of a file, or why it has none: a file shorter than the header
/// cannot be read, and a header without the signature is refused whatever
/// else it holds.
pub open spec fn header_of(data: Seq<u8>) -> Result<HeaderView, ParsingError> {
    if data.len() < HEADER_SIZE {
        Err(ParsingError::FileError)
    } else if !has_signature(data) {
        Err(ParsingError::InvalidSignature)
    } else {
        Ok(header_fields(data))
    }
}

/// Tells whether `data` has bytes 4..8 and they are the signature.
pub fn check_signature(data: &[u8]) -> (ok: bool)
    ensures
        ok == (data@.len() >= 8 && has_signature(data@)),
{
    data.len() >= 8 && data[4] == 0x6f && data[5] == 0x6a && data[6] == 0x6e && data[7] == 0
}

/// Reads the header that `data` starts with.
pub fn read_header(data: &[u8]) -> (r: Result<HeaderInfo, ParsingError>)
    ensures
        match r {
            Ok(header) => {
                &&& header_of(data@) == Ok::<HeaderView, ParsingError>(header@)
                &&& texts_of(header@.title, header@.artist, header@.chart_maker, data@)
            },
            Err(e) => header_of(data@) == Err::<HeaderView, ParsingError>(e),
        },
{
    if data.len() < HEADER_SIZE {
        return Err(ParsingError::FileError);
    }
    if !check_signature(data) {
        return Err(ParsingError::InvalidSignature);
    }
    let header = HeaderInfo {
        chart_id: i32_at(data, 0),
        bpm_bits: u32_at(data, 16),
        level: [i16_at(data, 20), i16_at(data, 22), i16_at(data, 24)],
        title: decode_euc_kr(slice_subrange(data, 108, 172)),
        artist: decode_euc_kr(slice_subrange(data, 172, 204)),
        chart_maker: decode_euc_kr(slice_subrange(data, 204, 236)),
    };
    assert(header@.level =~= header_fields(data@).level);
    Ok(header)
}

/// A header whose signature bytes are not `"ojn\0"` is refused for its
/// signature, whatever the rest of it holds.
pub proof fn lemma_bad_signature_is_refused(data: Seq<u8>)
    requires
        data.len() >= HEADER_SIZE,
        !has_signature(data),
    ensures
        header_of(data) == Err::<HeaderView, ParsingError>(ParsingError::InvalidSignature),
{
}

/// A header that was written with the identifier, the tempo bits and the
/// levels in little-endian order is read back with the same values.
pub proof fn lemma_header_round_trip(
    data: Seq<u8>,
    chart_id: i32,
    bpm_bits: u32,
    level: Seq<i16>,
)
    requires
        data.len() >= HEADER_SIZE,
        has_signature(data),
        level.len() == 3,
        data.subrange(0, 4) == i32_le_bytes(chart_id),
        data.subrange(16, 20) == u32_le_bytes(bpm_bits as int),
        forall|i: int| 0 <= i < 3 ==> data.subrange(20 + 2 * i, 22 + 2 * i) == i16_le_bytes(level[i]),
    ensures
        header_of(data) is Ok,
        header_of(data).unwrap().chart_id == chart_id,
        header_of(data).unwrap().bpm_bits == bpm_bits,
        header_of(data).unwrap().level == Seq::new(3, |i: int| level[i] as int),
{
    lemma_le_i32_round_trip(data, 0, chart_id);
    lemma_le_u32_round_trip(data, 16, bpm_bits);
    assert forall|i: int| 0 <= i < 3 implies le_i16(data, 20 + 2 * i) == level[i] by {
        lemma_le_i16_round_trip(data, 20 + 2 * i, level[i]);
    }
    assert(header_fields(data).level =~= Seq::new(3, |i: int| level[i] as int));
}

} // verus!

//! Little-endian integers at a position of a byte sequence.
use vstd::prelude::*;

verus! {

/// The unsigned 16-bit integer stored little-endian at `s[at]`, `s[at + 1]`.
pub open spec fn le_u16(s: Seq<u8>, at: int) -> int {
    s[at] as int + 0x100 * (s[at + 1] as int)
}

/// The two's-complement reading of `le_u16`.
pub open spec fn le_i16(s: Seq<u8>, at: int) -> int {
    let u = le_u16(s, at);
    if u < 0x8000 {
        u
    } else {
        u - 0x1_0000
    }
}

/// The unsigned 32-bit integer stored little-endian at `s[at] .. s[at + 3]`.
pub open spec fn le_u32(s: Seq<u8>, at: int) -> int {
    s[at] as int + 0x100 * (s[at + 1] as int) + 0x1_0000 * (s[at + 2] as int) + 0x100_0000 * (s[at
        + 3] as int)
}

/// The two's-complement reading of `le_u32`.
pub open spec fn le_i32(s: Seq<u8>, at: int) -> int {
    let u = le_u32(s, at);
    if u < 0x8000_0000 {
        u
    } else {
        u - 0x1_0000_0000
    }
}

/// The lowest byte of `u`.
pub open spec fn low_byte(u: int) -> u8 {
    (u % 0x100) as u8
}

/// `u` without its lowest byte.
pub open spec fn drop_byte(u: int) -> int {
    u / 0x100
}

/// The little-endian bytes of the unsigned 16-bit integer `u`.
pub open spec fn u16_le_bytes(u: int) -> Seq<u8> {
    seq![low_byte(u), low_byte(drop_byte(u))]
}

/// The little-endian bytes of `v` in two's complement.
pub open spec fn i16_le_bytes(v: i16) -> Seq<u8> {
    u16_le_bytes(
        if v < 0 {
            v + 0x1_0000
        } else {
            v as int
        },
    )
}

/// The little-endian bytes of the unsigned 32-bit integer `u`.
pub open spec fn u32_le_bytes(u: int) -> Seq<u8> {
    seq![
        low_byte(u),
        low_byte(drop_byte(u)),
        low_byte(drop_byte(drop_byte(u))),
        low_byte(drop_byte(drop_byte(drop_byte(u)))),
    ]
}

/// The little-endian bytes of `v` in two's complement.
pub open spec fn i32_le_bytes(v: i32) -> Seq<u8> {
    u32_le_bytes(
        if v < 0 {
            v + 0x1_0000_0000
        } else {
            v as int
        },
    )
}

/// Reading the bytes of an unsigned 16-bit integer gives it back.
pub proof fn lemma_u16_bytes_read_back(u: int)
    requires
        0 <= u < 0x1_0000,
    ensures
        le_u16(u16_le_bytes(u), 0) == u,
{
    let q = drop_byte(u);
    assert(u == 0x100 * q + u % 0x100);
    assert(0 <= q < 0x100);
}

/// Reading the bytes of an unsigned 32-bit integer gives it back.
pub proof fn lemma_u32_bytes_read_back(u: int)
    requires
        0 <= u < 0x1_0000_0000,
    ensures
        le_u32(u32_le_bytes(u), 0) == u,
{
    let q1 = drop_byte(u);
    let q2 = drop_byte(q1);
    let q3 = drop_byte(q2);
    assert(u == 0x100 * q1 + u % 0x100);
    assert(q1 == 0x100 * q2 + q1 % 0x100);
    assert(q2 == 0x100 * q3 + q2 % 0x100);
    assert(0 <= q1 < 0x100_0000);
    assert(0 <= q2 < 0x1_0000);
    assert(0 <= q3 < 0x100);
    let bytes = u32_le_bytes(u);
    assert(bytes[0] == u % 0x100);
    assert(bytes[1] == q1 % 0x100);
    assert(bytes[2] == q2 % 0x100);
    assert(bytes[3] == q3);
}

/// What is read at `at` is what is read at the start of the bytes from `at`.
pub proof fn lemma_read_at(s: Seq<u8>, at: int)
    requires
        0 <= at,
    ensures
        at + 2 <= s.len() ==> le_u16(s, at) == le_u16(s.subrange(at, at + 2), 0),
        at + 4 <= s.len() ==> le_u32(s, at) == le_u32(s.subrange(at, at + 4), 0),
{
    if at + 2 <= s.len() {
        let part = s.subrange(at, at + 2);
        assert(part[0] == s[at] && part[1] == s[at + 1]);
    }
    if at + 4 <= s.len() {
        let part = s.subrange(at, at + 4);
        assert(part[0] == s[at] && part[1] == s[at + 1]);
        assert(part[2] == s[at + 2] && part[3] == s[at + 3]);
    }
}

/// Where the two bytes at `at` are the encoding of `v`, `le_i16` reads `v`.
pub proof fn lemma_le_i16_round_trip(s: Seq<u8>, at: int, v: i16)
    requires
        0 <= at,
        at + 2 <= s.len(),
        s.subrange(at, at + 2) == i16_le_bytes(v),
    ensures
        le_i16(s, at) == v,
{
    lemma_read_at(s, at);
    if v < 0 {
        lemma_u16_bytes_read_back(v + 0x1_0000);
    } else {
        lemma_u16_bytes_read_back(v as int);
    }
}

/// Where the four bytes at `at` are the encoding of `u`, `le_u32` reads `u`.
pub proof fn lemma_le_u32_round_trip(s: Seq<u8>, at: int, u: u32)
    requires
        0 <= at,
        at + 4 <= s.len(),
        s.subrange(at, at + 4) == u32_le_bytes(u as int),
    ensures
        le_u32(s, at) == u,
{
    lemma_read_at(s, at);
    lemma_u32_bytes_read_back(u as int);
}

/// Where the four bytes at `at` are the encoding of `v`, `le_i32` reads `v`.
pub proof fn lemma_le_i32_round_trip(s: Seq<u8>, at: int, v: i32)
    requires
        0 <= at,
        at + 4 <= s.len(),
        s.subrange(at, at + 4) == i32_le_bytes(v),
    ensures
        le_i32(s, at) == v,
{
    lemma_read_at(s, at);
    if v < 0 {
        lemma_u32_bytes_read_back(v + 0x1_0000_0000);
    } else {
        lemma_u32_bytes_read_back(v as int);
    }
}

/// Whether `width` bytes starting at `at` lie inside a sequence of `len` bytes.
pub open spec fn in_range(len: nat, at: int, width: int) -> bool {
    0 <= at && at + width <= len
}

/// The signed 16-bit little-endian integer at `at`.
pub fn i16_at(data: &[u8], at: usize) -> (v: i16)
    requires
        in_range(data@.len(), at as int, 2),
    ensures
        v == le_i16(data@, at as int),
{
    let u: u32 = data[at] as u32 + 0x100 * (data[at + 1] as u32);
    if u < 0x8000 {
        u as i16
    } else {
        (u as i32 - 0x1_0000) as i16
    }
}

/// The unsigned 32-bit little-endian integer at `at`.
pub fn u32_at(data: &[u8], at: usize) -> (v: u32)
    requires
        in_range(data@.len(), at as int, 4),
    ensures
        v == le_u32(data@, at as int),
{
    let u: u64 = data[at] as u64 + 0x100 * (data[at + 1] as u64) + 0x1_0000 * (data[at
        + 2] as u64) + 0x100_0000 * (data[at + 3] as u64);
    u as u32
}

/// The signed 32-bit little-endian integer at `at`.
pub fn i32_at(data: &[u8], at: usize) -> (v: i32)
    requires
        in_range(data@.len(), at as int, 4),
    ensures
        v == le_i32(data@, at as int),
{
    let u = u32_at(data, at);
    if u < 0x8000_0000 {
        u as i32
    } else {
        (u as i64 - 0x1_0000_0000) as i32
    }
}

} // verus!

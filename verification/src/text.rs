//! Text fields: EUC-KR bytes that end at the first zero byte.
use vstd::prelude::*;

verus! {

/// The text that `encoding_rs::Encoding::decode_without_bom_handling`
/// yields for `bytes` on `encoding_rs::EUC_KR`.
pub uninterp spec fn euc_kr_text(bytes: Seq<u8>) -> Seq<char>;

/// Whether a run of `len` bytes is short enough for the decoder to size its
/// output buffer.
pub open spec fn decodable(len: nat) -> bool {
    8 * len + 16 <= isize::MAX
}

/// Whether every byte is ASCII.
pub open spec fn all_ascii(bytes: Seq<u8>) -> bool {
    forall|i: int| 0 <= i < bytes.len() ==> bytes[i] < 0x80
}

/// The bytes as characters, one for one.
pub open spec fn ascii_text(bytes: Seq<u8>) -> Seq<char> {
    Seq::new(bytes.len(), |i: int| bytes[i] as char)
}

/// Decodes `bytes` with `encoding_rs::Encoding::decode_without_bom_handling`
/// on `encoding_rs::EUC_KR` and keeps the text.
///
/// That function decodes as EUC-KR whatever the bytes start with, replaces
/// each malformed sequence by U+FFFD and never fails. Its result depends on
/// the bytes alone. Where every byte is ASCII it hands the bytes back as
/// text, unchanged. It panics where the size of its output buffer
/// overflows, which the bound on the length rules out.
#[verifier::external_body]
fn euc_kr_decode(bytes: &[u8]) -> (text: String)
    requires
        decodable(bytes@.len()),
    ensures
        text@ == euc_kr_text(bytes@),
        all_ascii(bytes@) ==> text@ == ascii_text(bytes@),
{
    encoding_rs::EUC_KR.decode_without_bom_handling(bytes).0.into_owned()
}

/// Whether the text of `field` ends at `p`: no byte before `p` is zero, and
/// `p` is the place of a zero byte or the end of the field.
pub open spec fn ends_text(field: Seq<u8>, p: int) -> bool {
    &&& 0 <= p <= field.len()
    &&& forall|k: int| 0 <= k < p ==> field[k] != 0
    &&& p < field.len() ==> field[p] == 0
}

/// The number of bytes of `field` before its first zero byte, or its whole
/// length when it holds none.
pub open spec fn text_len(field: Seq<u8>) -> nat
    decreases field.len(),
{
    if field.len() == 0 || field[0] == 0 {
        0
    } else {
        1 + text_len(field.skip(1))
    }
}

/// The bytes of `field` that are text: those before its first zero byte.
pub open spec fn text_bytes(field: Seq<u8>) -> Seq<u8> {
    field.subrange(0, text_len(field) as int)
}

/// The text of a field.
pub open spec fn field_text(field: Seq<u8>) -> Seq<char> {
    euc_kr_text(text_bytes(field))
}

/// Whether `text` is the text of `field`: what the decoder yields for the
/// bytes before the first zero byte, which is those bytes as characters
/// where all of them are ASCII.
pub open spec fn is_text_of(text: Seq<char>, field: Seq<u8>) -> bool {
    &&& text == field_text(field)
    &&& all_ascii(text_bytes(field)) ==> text == ascii_text(text_bytes(field))
}

/// `text_len` is the one place where the text of a field ends.
pub proof fn lemma_text_len(field: Seq<u8>, p: int)
    ensures
        ends_text(field, text_len(field) as int),
        ends_text(field, p) ==> p == text_len(field),
    decreases field.len(),
{
    if field.len() == 0 || field[0] == 0 {
    } else {
        let rest = field.skip(1);
        lemma_text_len(rest, p - 1);
        let q = text_len(rest) as int;
        assert forall|k: int| 0 <= k < q + 1 implies field[k] != 0 by {
            if k > 0 {
                assert(rest[k - 1] == field[k]);
            }
        }
        if q + 1 < field.len() {
            assert(rest[q] == field[q + 1]);
        }
        if ends_text(field, p) {
            assert(p > 0);
            assert forall|k: int| 0 <= k < p - 1 implies rest[k] != 0 by {
                assert(rest[k] == field[k + 1]);
            }
            if p - 1 < rest.len() {
                assert(rest[p - 1] == field[p]);
            }
            assert(ends_text(rest, p - 1));
        }
    }
}

/// Decodes a text field: the bytes before the first zero byte are decoded
/// as EUC-KR, the zero byte and what follows it are dropped. A field
/// without a zero byte is decoded whole.
pub fn decode_euc_kr(data: &[u8]) -> (text: String)
    requires
        decodable(data@.len()),
    ensures
        is_text_of(text@, data@),
{
    let mut null_pos: usize = 0;
    while null_pos < data.len() && data[null_pos] != 0
        invariant
            null_pos <= data@.len(),
            forall|k: int| 0 <= k < null_pos ==> data@[k] != 0,
        decreases data@.len() - null_pos,
    {
        null_pos = null_pos + 1;
    }
    proof {
        lemma_text_len(data@, null_pos as int);
    }
    let trimmed = vstd::slice::slice_subrange(data, 0, null_pos);
    euc_kr_decode(trimmed)
}

/// What follows the first zero byte of a field has no part in its text.
pub proof fn lemma_text_ends_at_zero(text: Seq<u8>, rest: Seq<u8>)
    requires
        forall|k: int| 0 <= k < text.len() ==> text[k] != 0,
    ensures
        text_bytes(text + seq![0u8] + rest) == text,
        field_text(text + seq![0u8] + rest) == euc_kr_text(text),
{
    let field = text + seq![0u8] + rest;
    assert(ends_text(field, text.len() as int));
    lemma_text_len(field, text.len() as int);
    assert(text_bytes(field) =~= text);
}

/// A field without a zero byte is text over its whole width.
pub proof fn lemma_text_fills_field(field: Seq<u8>)
    requires
        forall|k: int| 0 <= k < field.len() ==> field[k] != 0,
    ensures
        text_bytes(field) == field,
        field_text(field) == euc_kr_text(field),
{
    assert(ends_text(field, field.len() as int));
    lemma_text_len(field, field.len() as int);
    assert(text_bytes(field) =~= field);
}

} // verus!

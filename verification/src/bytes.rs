//! Relating texts to their UTF-8 encodings: an ASCII character stands in a
//! text exactly when its byte stands in the text's encoding, because every
//! byte of a multi-byte encoding is at least `0x80`.

use vstd::prelude::*;
use vstd::utf8::{
    char_is_scalar, char_u32_cast, encode_scalar, encode_utf8, has_width_1_encoding,
    has_width_2_encoding, has_width_3_encoding, has_width_4_encoding, is_scalar,
    last_continuation_byte, leading_byte_width_1, leading_byte_width_2, leading_byte_width_3,
    leading_byte_width_4, second_last_continuation_byte, third_last_continuation_byte,
};

use crate::text::lemma_concat_contains;

verus! {

/// A one-byte scalar encodes to exactly its own byte.
pub proof fn lemma_ascii_scalar_byte(v: u32)
    requires
        v <= 0x7f,
    ensures
        encode_scalar(v) =~= seq![v as u8],
{
    assert(has_width_1_encoding(v));
    assert(leading_byte_width_1(v) == v as u8) by (bit_vector)
        requires
            v <= 0x7f,
    ;
}

/// The encoding of a single ASCII character is its single byte.
pub proof fn lemma_ascii_encode_single(c: char)
    requires
        (c as u32) <= 0x7f,
    ensures
        encode_utf8(seq![c]) =~= seq![(c as u32) as u8],
{
    char_is_scalar(c);
    let v = c as u32;
    assert(seq![c].drop_first() =~= Seq::<char>::empty());
    assert(encode_utf8(seq![c]) == encode_scalar(v) + encode_utf8(Seq::<char>::empty()));
    lemma_ascii_scalar_byte(v);
    assert(encode_scalar(v) + Seq::<u8>::empty() =~= encode_scalar(v));
}

/// Every byte of a multi-byte scalar encoding is at least `0x80`.
proof fn lemma_wide_scalar_bytes_high(v: u32)
    requires
        is_scalar(v),
        v > 0x7f,
    ensures
        forall|i: int|
            0 <= i < encode_scalar(v).len() ==> #[trigger] encode_scalar(v)[i] >= 0x80,
{
    assert(leading_byte_width_2(v) >= 0x80) by (bit_vector);
    assert(leading_byte_width_3(v) >= 0x80) by (bit_vector);
    assert(leading_byte_width_4(v) >= 0x80) by (bit_vector);
    assert(last_continuation_byte(v) >= 0x80) by (bit_vector);
    assert(second_last_continuation_byte(v) >= 0x80) by (bit_vector);
    assert(third_last_continuation_byte(v) >= 0x80) by (bit_vector);
    if has_width_2_encoding(v) {
        assert(encode_scalar(v) == seq![leading_byte_width_2(v), last_continuation_byte(v)]);
    } else if has_width_3_encoding(v) {
    } else {
        assert(has_width_4_encoding(v));
    }
}

/// An ASCII character stands in a text exactly when its byte stands in the
/// text's UTF-8 encoding.
pub proof fn lemma_ascii_byte_occurs(s: Seq<char>, c: char)
    requires
        (c as u32) <= 0x7f,
    ensures
        encode_utf8(s).contains((c as u32) as u8) <==> s.contains(c),
    decreases s.len(),
{
    let b = (c as u32) as u8;
    let v = c as u32;
    assert(b <= 0x7f && b as u32 == v) by (bit_vector)
        requires
            v <= 0x7f,
            b == v as u8,
    ;
    if s.len() == 0 {
    } else {
        let c0 = s[0];
        let v0 = c0 as u32;
        char_is_scalar(c0);
        let enc0 = encode_scalar(v0);
        let rest = s.drop_first();
        assert(encode_utf8(s) == enc0 + encode_utf8(rest));
        lemma_concat_contains(enc0, encode_utf8(rest), b);
        lemma_ascii_byte_occurs(rest, c);
        // the head's encoding holds `b` exactly when the head is `c`
        assert(enc0.contains(b) <==> c0 == c) by {
            if v0 <= 0x7f {
                lemma_ascii_scalar_byte(v0);
                assert(enc0 =~= seq![v0 as u8]);
                if enc0.contains(b) {
                    assert(enc0[0] == b);
                    assert(v0 == v) by (bit_vector)
                        requires
                            v0 <= 0x7f,
                            v <= 0x7f,
                            v0 as u8 == v as u8,
                    ;
                    char_u32_cast(c0, v0);
                    char_u32_cast(c, v);
                }
                if c0 == c {
                    assert(enc0[0] == b);
                }
            } else {
                lemma_wide_scalar_bytes_high(v0);
                if enc0.contains(b) {
                    let i = choose|i: int| 0 <= i < enc0.len() && enc0[i] == b;
                    assert(enc0[i] >= 0x80);
                }
                if c0 == c {
                    assert(v0 == v);
                }
            }
        }
        // membership in the tail shifts by one
        assert(rest.contains(c) <==> exists|i: int| 1 <= i < s.len() && s[i] == c) by {
            if rest.contains(c) {
                let i = choose|i: int| 0 <= i < rest.len() && rest[i] == c;
                assert(s[i + 1] == c);
            }
            if exists|i: int| 1 <= i < s.len() && s[i] == c {
                let i = choose|i: int| 1 <= i < s.len() && s[i] == c;
                assert(rest[i - 1] == c);
            }
        }
        if s.contains(c) {
            let i = choose|i: int| 0 <= i < s.len() && s[i] == c;
            if i == 0 {
                assert(c0 == c);
            }
        }
    }
}

} // verus!

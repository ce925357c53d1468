//! Bytes that are text.

use vstd::prelude::*;
use vstd::utf8::{
    encode_utf8, is_char_boundary_iff_not_is_continuation_byte, partial_valid_partial_invalid_utf8,
    pop_first_scalar, valid_utf8, valid_utf8_concat, valid_utf8_split,
};

verus! {

/// The error of `String::from_utf8`.
#[verifier::external_type_specification]
#[verifier::external_body]
pub struct ExFromUtf8Error(std::string::FromUtf8Error);

/// `String::from_utf8`: the string whose UTF-8 bytes are given, or an error if
/// they are not UTF-8.
pub assume_specification[ String::from_utf8 ](bytes: Vec<u8>) -> (text: Result<
    String,
    std::string::FromUtf8Error,
>)
    ensures
        text is Ok <==> valid_utf8(bytes@),
        text matches Ok(s) ==> encode_utf8(s@) == bytes@,
;

/// Whether every byte is ASCII.
pub open spec fn is_ascii_bytes(s: Seq<u8>) -> bool {
    forall|i: int| 0 <= i < s.len() ==> #[trigger] s[i] < 0x80
}

/// ASCII bytes are UTF-8.
pub proof fn lemma_ascii_valid_utf8(s: Seq<u8>)
    requires
        is_ascii_bytes(s),
    ensures
        valid_utf8(s),
    decreases s.len(),
{
    if s.len() > 0 {
        let b = s[0];
        assert(b < 0x80 ==> (b & 0x7f) == b) by (bit_vector);
        assert(pop_first_scalar(s) =~= s.skip(1));
        lemma_ascii_valid_utf8(s.skip(1));
    }
}

/// Between ASCII bytes, with at least one behind it, a byte string is UTF-8 if
/// and only if the whole is.
pub proof fn lemma_utf8_between_ascii(head: Seq<u8>, middle: Seq<u8>, tail: Seq<u8>)
    requires
        is_ascii_bytes(head),
        is_ascii_bytes(tail),
        tail.len() > 0,
    ensures
        valid_utf8(head + middle + tail) <==> valid_utf8(middle),
{
    lemma_ascii_valid_utf8(head);
    lemma_ascii_valid_utf8(tail);
    if valid_utf8(middle) {
        valid_utf8_concat(head, middle);
        valid_utf8_concat(head + middle, tail);
    }
    if valid_utf8(head + middle + tail) {
        let whole = head + middle + tail;
        let front = head + middle;
        assert(whole[front.len() as int] == tail[0]);
        is_char_boundary_iff_not_is_continuation_byte(whole, front.len() as int);
        valid_utf8_split(whole, front.len() as int);
        assert(whole.subrange(0, front.len() as int) =~= front);
        assert(front.subrange(0, head.len() as int) =~= head);
        assert(front.subrange(head.len() as int, front.len() as int) =~= middle);
        if !valid_utf8(middle) {
            partial_valid_partial_invalid_utf8(front, head.len() as int);
        }
    }
}

} // verus!

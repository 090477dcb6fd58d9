//! The safe text view of a byte buffer: the length of its longest prefix that
//! is valid UTF-8, and whether the whole buffer qualifies. Routing reads only
//! this prefix; forwarding always uses the untouched original bytes.
use vstd::prelude::*;

verus! {

use vstd::utf8::valid_first_scalar;
use vstd::utf8::length_of_first_scalar;
use vstd::utf8::pop_first_scalar;
use vstd::utf8::valid_utf8;
use vstd::utf8::valid_utf8_concat;
use vstd::utf8::is_leading_byte_width_1;
use vstd::utf8::is_leading_byte_width_2;
use vstd::utf8::is_leading_byte_width_3;
use vstd::utf8::is_leading_byte_width_4;
use vstd::utf8::is_continuation_byte;
use vstd::utf8::decode_first_codepoint;
use vstd::utf8::length_of_first_codepoint;

/// Length of the longest prefix of `s` that is a valid UTF-8 encoding,
/// obtained by peeling complete scalar encodings from the front until the
/// remainder does not start with one.
pub open spec fn text_prefix_len(s: Seq<u8>) -> int
    decreases s.len(),
    via text_prefix_len_decreases
{
    if valid_first_scalar(s) {
        length_of_first_scalar(s) + text_prefix_len(pop_first_scalar(s))
    } else {
        0
    }
}

#[via_fn]
proof fn text_prefix_len_decreases(s: Seq<u8>) {
    if valid_first_scalar(s) {
        assert(1 <= length_of_first_scalar(s) <= s.len());
    }
}

/// The prefix length never exceeds the buffer length.
pub proof fn lemma_text_prefix_len_bounds(s: Seq<u8>)
    ensures
        0 <= text_prefix_len(s) <= s.len(),
    decreases s.len(),
{
    if valid_first_scalar(s) {
        lemma_text_prefix_len_bounds(pop_first_scalar(s));
    }
}

/// A valid scalar encoding at the front of `s` is also at the front of any
/// truncation of `s` that still contains it whole, and the other way round.
proof fn lemma_first_scalar_take(s: Seq<u8>, m: int)
    requires
        0 < m <= s.len(),
    ensures
        valid_first_scalar(s.take(m)) && length_of_first_scalar(s.take(m)) <= m
            ==> valid_first_scalar(s) && length_of_first_scalar(s)
            == length_of_first_scalar(s.take(m)),
        valid_first_scalar(s) && length_of_first_scalar(s) <= m ==> valid_first_scalar(s.take(m))
            && length_of_first_scalar(s.take(m)) == length_of_first_scalar(s)
            && decode_first_codepoint(s.take(m)) == decode_first_codepoint(s),
{
    let t = s.take(m);
    assert(t.len() == m);
    assert forall|j: int| 0 <= j < m implies t[j] == s[j] by {}
}

/// The peeled prefix is valid UTF-8.
pub proof fn lemma_text_prefix_valid(s: Seq<u8>)
    ensures
        valid_utf8(s.take(text_prefix_len(s))),
    decreases s.len(),
{
    let p = text_prefix_len(s);
    if valid_first_scalar(s) {
        let k = length_of_first_scalar(s);
        let rest = pop_first_scalar(s);
        lemma_text_prefix_len_bounds(rest);
        lemma_text_prefix_valid(rest);
        assert(valid_utf8(s.take(k))) by {
            lemma_first_scalar_take(s, k);
            assert(pop_first_scalar(s.take(k)) =~= Seq::<u8>::empty());
            reveal_with_fuel(valid_utf8, 2);
        }
        assert(s.take(p) =~= s.take(k) + rest.take(p - k));
        valid_utf8_concat(s.take(k), rest.take(p - k));
    } else {
        assert(s.take(0) =~= Seq::<u8>::empty());
    }
}

/// No prefix longer than `text_prefix_len(s)` is valid UTF-8: the peeled
/// prefix really is the longest one.
pub proof fn lemma_text_prefix_maximal(s: Seq<u8>, q: int)
    requires
        text_prefix_len(s) < q <= s.len(),
    ensures
        !valid_utf8(s.take(q)),
    decreases s.len(),
{
    lemma_text_prefix_len_bounds(s);
    let p = text_prefix_len(s);
    let t = s.take(q);
    if valid_utf8(t) {
        assert(t.len() == q);
        assert(q > 0);
        assert(valid_first_scalar(t));
        assert(length_of_first_scalar(t) <= q);
        lemma_first_scalar_take(s, q);
        assert(valid_first_scalar(s));
        let k = length_of_first_scalar(s);
        let rest = pop_first_scalar(s);
        lemma_text_prefix_len_bounds(rest);
        assert(q - k > text_prefix_len(rest));
        assert(pop_first_scalar(t) =~= rest.take(q - k));
        assert(valid_utf8(rest.take(q - k)));
        lemma_text_prefix_maximal(rest, q - k);
        assert(false);
    }
}

/// Peeling a buffer that starts with a wholly valid part walks through that
/// part first: the prefix of the concatenation is the part plus the prefix
/// of the remainder.
pub proof fn lemma_text_prefix_concat(head: Seq<u8>, tail: Seq<u8>)
    requires
        valid_utf8(head),
    ensures
        text_prefix_len(head + tail) == head.len() + text_prefix_len(tail),
    decreases head.len(),
{
    if head.len() == 0 {
        assert(head + tail =~= tail);
    } else {
        let s = head + tail;
        assert(valid_first_scalar(head));
        let k = length_of_first_scalar(head);
        assert(s.take(head.len() as int) =~= head);
        lemma_first_scalar_take(s, head.len() as int);
        assert(valid_first_scalar(s) && length_of_first_scalar(s) == k);
        assert(pop_first_scalar(s) =~= pop_first_scalar(head) + tail);
        lemma_text_prefix_concat(pop_first_scalar(head), tail);
    }
}

/// The safe text view, stated once: the prefix length is within bounds, the
/// prefix is valid text, and the buffer is wholly valid text exactly when the
/// prefix covers all of it.
pub proof fn lemma_safe_text_view(s: Seq<u8>)
    ensures
        0 <= text_prefix_len(s) <= s.len(),
        valid_utf8(s.take(text_prefix_len(s))),
        text_prefix_len(s) == s.len() <==> valid_utf8(s),
{
    lemma_text_prefix_len_bounds(s);
    lemma_text_prefix_valid(s);
    if text_prefix_len(s) == s.len() {
        assert(s.take(s.len() as int) =~= s);
    } else {
        lemma_text_prefix_maximal(s, s.len() as int);
        assert(s.take(s.len() as int) =~= s);
    }
}

/// Classifies the bytes of `s` starting at `i`: `Some(w)` when they begin
/// with a complete, well-formed scalar encoding of width `w`, `None` when
/// they do not (truncated, malformed, overlong, or surrogate).
fn first_scalar_width_at(s: &Vec<u8>, i: usize) -> (r: Option<usize>)
    requires
        i < s.len(),
    ensures
        match r {
            Some(w) => valid_first_scalar(s@.skip(i as int)) && w == length_of_first_scalar(
                s@.skip(i as int),
            ) && 1 <= w && i + w <= s.len(),
            None => !valid_first_scalar(s@.skip(i as int)),
        },
{
    let ghost t = s@.skip(i as int);
    proof {
        assert(t.len() == s@.len() - i);
        assert forall|j: int| 0 <= j < t.len() implies t[j] == s@[i + j] by {}
    }
    let n = s.len();
    let b0 = s[i];
    if b0 <= 0x7f {
        proof {
            assert((b0 & 0x7f) <= 0x7f) by (bit_vector);
        }
        Some(1)
    } else if 0xc0 <= b0 && b0 <= 0xdf {
        if n - i < 2 {
            return None;
        }
        let b1 = s[i + 1];
        if !(0x80 <= b1 && b1 <= 0xbf) {
            return None;
        }
        let cp: u32 = (((b0 & 0x1f) as u32) << 6u32) | ((b1 & 0x3f) as u32);
        assert(cp == decode_first_codepoint(t));
        proof {
            assert((((b0 & 0x1f) as u32) << 6u32) | ((b1 & 0x3f) as u32) <= 0x7ff) by (bit_vector);
        }
        if 0x80 <= cp {
            Some(2)
        } else {
            None
        }
    } else if 0xe0 <= b0 && b0 <= 0xef {
        if n - i < 3 {
            return None;
        }
        let b1 = s[i + 1];
        let b2 = s[i + 2];
        if !(0x80 <= b1 && b1 <= 0xbf) || !(0x80 <= b2 && b2 <= 0xbf) {
            return None;
        }
        let cp: u32 = (((b0 & 0x0f) as u32) << 12u32) | (((b1 & 0x3f) as u32) << 6u32) | ((b2
            & 0x3f) as u32);
        assert(cp == decode_first_codepoint(t));
        if 0x800 <= cp && !(0xd800 <= cp && cp <= 0xdfff) {
            Some(3)
        } else {
            None
        }
    } else if 0xf0 <= b0 && b0 <= 0xf7 {
        if n - i < 4 {
            return None;
        }
        let b1 = s[i + 1];
        let b2 = s[i + 2];
        let b3 = s[i + 3];
        if !(0x80 <= b1 && b1 <= 0xbf) || !(0x80 <= b2 && b2 <= 0xbf) || !(0x80 <= b3 && b3
            <= 0xbf) {
            return None;
        }
        let cp: u32 = (((b0 & 0x07) as u32) << 18u32) | (((b1 & 0x3f) as u32) << 12u32) | (((b2
            & 0x3f) as u32) << 6u32) | ((b3 & 0x3f) as u32);
        assert(cp == decode_first_codepoint(t));
        if 0x10000 <= cp && cp <= 0x10ffff {
            Some(4)
        } else {
            None
        }
    } else {
        None
    }
}

/// Computes [`text_prefix_len`] of the buffer: the length of its longest
/// valid UTF-8 prefix.
pub fn utf8_prefix_length(s: &Vec<u8>) -> (r: usize)
    ensures
        r == text_prefix_len(s@),
{
    let mut i: usize = 0;
    proof {
        assert(s@.skip(0) =~= s@);
    }
    loop
        invariant
            0 <= i <= s.len(),
            text_prefix_len(s@) == i + text_prefix_len(s@.skip(i as int)),
        decreases s.len() - i,
    {
        if i >= s.len() {
            proof {
                assert(s@.skip(i as int) =~= Seq::<u8>::empty());
            }
            return i;
        }
        match first_scalar_width_at(s, i) {
            None => {
                return i;
            },
            Some(w) => {
                proof {
                    assert(pop_first_scalar(s@.skip(i as int)) =~= s@.skip(i + w));
                }
                i = i + w;
            },
        }
    }
}

/// Computes the safe text view of a buffer: the longest valid-text prefix
/// length, and whether the whole buffer is valid text. Never fails; an empty
/// buffer yields prefix length `0` and `safe == true`.
pub fn safe_text_view(s: &Vec<u8>) -> (r: (usize, bool))
    ensures
        r.0 == text_prefix_len(s@),
        r.1 == (r.0 == s@.len()),
        r.1 <==> valid_utf8(s@),
        r.0 <= s@.len(),
        valid_utf8(s@.take(r.0 as int)),
{
    proof {
        lemma_safe_text_view(s@);
    }
    let p = utf8_prefix_length(s);
    (p, p == s.len())
}

} // verus!

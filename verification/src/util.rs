use vstd::prelude::*;
use vstd::utf8::{encode_utf8, is_char_boundary, is_continuation_byte};

verus! {

/// Where the last byte other than `'0'` stands in `b`, if there is one.
pub open spec fn last_non_zero(b: Seq<u8>) -> Option<int>
    decreases b.len(),
{
    if b.len() == 0 {
        None
    } else if b.last() == 48u8 {
        last_non_zero(b.drop_last())
    } else {
        Some(b.len() - 1)
    }
}

/// `b` without its trailing `'0'` bytes, and without the decimal point they
/// followed; unchanged when it holds nothing but `'0'`s.
pub open spec fn spec_truncate_trailing_zeros(b: Seq<u8>) -> Seq<u8> {
    match last_non_zero(b) {
        None => b,
        Some(i) => if b[i] == 46u8 {
            b.take(i)
        } else {
            b.take(i + 1)
        },
    }
}

/// Calls `String::truncate`, which keeps the first `new_len` bytes of the
/// string. The documentation says that it panics when `new_len` is not on a
/// character boundary, so that case is excluded.
#[verifier::external_body]
fn string_truncate(s: &mut String, new_len: usize)
    requires
        new_len <= encode_utf8(old(s)@).len(),
        is_char_boundary(encode_utf8(old(s)@), new_len as int),
    ensures
        encode_utf8(final(s)@) == encode_utf8(old(s)@).take(new_len as int),
{
    s.truncate(new_len)
}

proof fn lemma_last_non_zero(b: Seq<u8>, i: int)
    requires
        0 <= i <= b.len(),
        forall|j: int| i <= j < b.len() ==> b[j] == 48u8,
    ensures
        last_non_zero(b) == last_non_zero(b.take(i)),
    decreases b.len() - i,
{
    if i < b.len() {
        assert(b.drop_last().take(i) =~= b.take(i));
        lemma_last_non_zero(b.drop_last(), i);
    } else {
        assert(b.take(i) =~= b);
    }
}

proof fn lemma_last_non_zero_spot(b: Seq<u8>)
    ensures
        match last_non_zero(b) {
            Some(i) => 0 <= i < b.len() && b[i] != 48u8 && forall|k: int|
                i < k < b.len() ==> b[k] == 48u8,
            None => forall|k: int| 0 <= k < b.len() ==> b[k] == 48u8,
        },
    decreases b.len(),
{
    if b.len() > 0 {
        lemma_last_non_zero_spot(b.drop_last());
        if b.last() == 48u8 {
            assert forall|k: int| 0 <= k < b.len() - 1 implies b[k] == b.drop_last()[k] by {}
        }
    }
}

/// On a number with one decimal point at `p`, as `{:.10}` writes it, the
/// result keeps everything up to the point, drops only `'0'`s after it, and
/// drops the point too exactly when nothing else is left after it: the
/// result is a prefix of the number, at least as long as its integer part,
/// and what it drops is the point or zeros; it never ends in the point, and
/// ends in a zero only where it is the integer part.
pub proof fn law_truncate_keeps_integer_part(b: Seq<u8>, p: int)
    requires
        0 <= p < b.len(),
        b[p] == 46u8,
        forall|k: int| 0 <= k < b.len() && k != p ==> b[k] != 46u8,
    ensures
        spec_truncate_trailing_zeros(b) == b.take(spec_truncate_trailing_zeros(b).len() as int),
        p <= spec_truncate_trailing_zeros(b).len(),
        spec_truncate_trailing_zeros(b).len() != p + 1,
        forall|k: int|
            spec_truncate_trailing_zeros(b).len() <= k < b.len() && k != p ==> b[k] == 48u8,
        spec_truncate_trailing_zeros(b).len() > p ==> spec_truncate_trailing_zeros(b).last()
            != 48u8,
{
    lemma_last_non_zero_spot(b);
    let r = spec_truncate_trailing_zeros(b);
    match last_non_zero(b) {
        Some(i) => {
            assert(i >= p);
            if b[i] == 46u8 {
                assert(i == p);
                assert(r =~= b.take(p));
            } else {
                assert(r =~= b.take(i + 1));
                assert(r.last() == b[i]);
            }
        },
        None => {
            assert(b[p] == 48u8);
        },
    }
}

/// Drops the zeros that end a formatted decimal number, and the point too
/// when nothing is left after it: `"1.2500"` gives `"1.25"`, `"3.000"` gives
/// `"3"`. Works on the UTF-8 bytes of the string.
pub fn truncate_trailing_zeros(string: String) -> (r: String)
    ensures
        encode_utf8(r@) == spec_truncate_trailing_zeros(encode_utf8(string@)),
{
    let ghost b = encode_utf8(string@);
    let mut text = string;
    let len = text.as_str().as_bytes().len();
    let mut i = len;
    while i > 0
        invariant
            b == encode_utf8(text@),
            b == encode_utf8(string@),
            b.len() <= usize::MAX,
            len == b.len(),
            i <= len,
            forall|j: int| i <= j < b.len() ==> b[j] == 48u8,
        decreases i,
    {
        i -= 1;
        let byte = text.as_str().as_bytes()[i];
        assert(byte == b[i as int]);
        if byte != 48u8 {
            proof {
                vstd::utf8::encode_utf8_valid_utf8(text@);
                lemma_last_non_zero(b, i + 1);
                assert(b.take(i + 1).drop_last() =~= b.take(i as int));
                assert(last_non_zero(b) == Some(i as int));
                vstd::utf8::is_char_boundary_start_end_of_seq(b);
            }
            if byte == 46u8 {
                proof {
                    vstd::utf8::is_char_boundary_iff_not_is_continuation_byte(b, i as int);
                }
                string_truncate(&mut text, i);
            } else {
                proof {
                    if i + 1 < b.len() {
                        vstd::utf8::is_char_boundary_iff_not_is_continuation_byte(b, i + 1);
                    }
                }
                string_truncate(&mut text, i + 1);
            }
            return text;
        }
    }
    proof {
        lemma_last_non_zero(b, 0);
    }
    text
}

/// Absolute value of a signed byte.
pub fn abs(val: i8) -> (r: i8)
    requires
        val != i8::MIN,
    ensures
        r as int == if val < 0 { -val } else { val as int },
{
    if val < 0 {
        -val
    } else {
        val
    }
}

} // verus!

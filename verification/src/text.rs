use vstd::prelude::*;
use vstd::utf8::is_ascii_chars;
use vstd::string::StrSliceExecFns;

verus! {

/// Calls `String::insert_str`, which inserts `t` at byte position `idx`. On
/// an ASCII string every position is a character boundary, and a byte
/// position is a character position; the documented panic (past the end)
/// is excluded.
#[verifier::external_body]
pub(crate) fn string_insert_str(s: &mut String, idx: usize, t: &str)
    requires
        is_ascii_chars(old(s)@),
        idx <= old(s)@.len(),
    ensures
        final(s)@ == old(s)@.take(idx as int) + t@ + old(s)@.skip(idx as int),
{
    s.insert_str(idx, t)
}

/// Calls `String::remove`, which removes and returns the character at byte
/// position `idx`; on an ASCII string that is character `idx`. The
/// documented panic (at or past the end) is excluded.
#[verifier::external_body]
pub(crate) fn string_remove(s: &mut String, idx: usize) -> (r: char)
    requires
        is_ascii_chars(old(s)@),
        idx < old(s)@.len(),
    ensures
        r == old(s)@[idx as int],
        final(s)@ == old(s)@.take(idx as int) + old(s)@.skip(idx as int + 1),
{
    s.remove(idx)
}

/// Calls `String::clear`, which removes all the contents.
#[verifier::external_body]
pub(crate) fn string_clear(s: &mut String)
    ensures
        final(s)@ == Seq::<char>::empty(),
{
    s.clear()
}

/// The number of characters of a string (of bytes too, when it is ASCII).
pub fn char_len(s: &String) -> (r: usize)
    ensures
        r == s@.len(),
{
    s.as_str().unicode_len()
}

pub proof fn lemma_ascii_splice(a: Seq<char>, i: int, t: Seq<char>)
    requires
        is_ascii_chars(a),
        is_ascii_chars(t),
        0 <= i <= a.len(),
    ensures
        is_ascii_chars(a.take(i) + t + a.skip(i)),
{
    let r = a.take(i) + t + a.skip(i);
    assert forall|k: int| 0 <= k < r.len() implies (r[k] as u32) < 128 by {
        if k < i {
            assert(r[k] == a[k]);
        } else if k < i + t.len() {
            assert(r[k] == t[k - i]);
        } else {
            assert(r[k] == a[k - t.len()]);
        }
    }
}

pub proof fn lemma_ascii_remove(a: Seq<char>, i: int)
    requires
        is_ascii_chars(a),
        0 <= i < a.len(),
    ensures
        is_ascii_chars(a.take(i) + a.skip(i + 1)),
{
    let r = a.take(i) + a.skip(i + 1);
    assert forall|k: int| 0 <= k < r.len() implies (r[k] as u32) < 128 by {
        if k < i {
            assert(r[k] == a[k]);
        } else {
            assert(r[k] == a[k + 1]);
        }
    }
}

} // verus!

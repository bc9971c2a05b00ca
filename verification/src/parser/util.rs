use vstd::prelude::*;
use vstd::string::StrSliceExecFns;
use vstd::std_specs::iter::IteratorSpec;
use vstd::string::StringSliceAdditionalSpecFns;
use vstd::utf8::is_char_boundary;

verus! {

/// Whether two strings hold the same characters.
pub fn str_eq(a: &str, b: &str) -> (r: bool)
    ensures
        r == (a@ == b@),
{
    broadcast use vstd::string::group_string_axioms;
    if a.unicode_len() != b.unicode_len() {
        return false;
    }
    let mut ca = a.chars();
    let mut cb = b.chars();
    let ghost mut i: int = 0;
    loop
        invariant
            a@.len() == b@.len(),
            0 <= i <= a@.len(),
            ca.remaining() == a@.skip(i),
            cb.remaining() == b@.skip(i),
            a@.take(i) == b@.take(i),
        decreases a@.len() - i,
    {
        let ghost ra = a@.skip(i);
        let ghost rb = b@.skip(i);
        match (ca.next(), cb.next()) {
            (Some(x), Some(y)) => {
                if x != y {
                    assert(a@[i] == ra[0]);
                    assert(b@[i] == rb[0]);
                    return false;
                }
                assert(ra.drop_first() =~= a@.skip(i + 1));
                assert(rb.drop_first() =~= b@.skip(i + 1));
                assert(a@.take(i + 1) =~= a@.take(i).push(ra[0]));
                assert(b@.take(i + 1) =~= b@.take(i).push(rb[0]));
                proof {
                    i = i + 1;
                }
            },
            _ => {
                assert(a@.take(i) =~= a@);
                assert(b@.take(i) =~= b@);
                return true;
            },
        }
    }
}


/// The part of `string` from byte `index` on; empty when `index` is at or
/// past the end.
pub fn str_after(string: &str, index: usize) -> (r: &str)
    requires
        index >= string.spec_bytes().len() || is_char_boundary(string.spec_bytes(), index as int),
    ensures
        r.spec_bytes() == if index >= string.spec_bytes().len() {
            Seq::<u8>::empty()
        } else {
            string.spec_bytes().skip(index as int)
        },
{
    let len = string.as_bytes().len();
    if index >= len {
        proof {
            reveal_strlit("");
            assert(""@ =~= Seq::<char>::empty());
        }
        ""
    } else {
        string.split_at(index).1
    }
}

} // verus!

//! Substring containment over sequences of characters.

use vstd::prelude::*;
use vstd::string::StrSliceExecFns;

verus! {

/// `needle` occurs in `hay` starting at character position `i`.
pub open spec fn contains_at(hay: Seq<char>, needle: Seq<char>, i: int) -> bool {
    &&& 0 <= i
    &&& i + needle.len() <= hay.len()
    &&& hay.subrange(i, i + needle.len()) == needle
}

/// `needle` occurs somewhere in `hay`. The empty needle occurs in every `hay`.
pub open spec fn contains_substring(hay: Seq<char>, needle: Seq<char>) -> bool {
    exists|i: int| contains_at(hay, needle, i)
}

/// `needle` occurs in `hay` at position `i`, decided by comparing the
/// characters one by one.
fn matches_at(hay: &str, needle: &str, i: usize) -> (r: bool)
    requires
        hay@.len() <= usize::MAX,
        i + needle@.len() <= hay@.len(),
    ensures
        r == contains_at(hay@, needle@, i as int),
{
    let needle_len: usize = needle.unicode_len();
    let mut j: usize = 0;
    while j < needle_len
        invariant
            hay@.len() <= usize::MAX,
            i + needle@.len() <= hay@.len(),
            needle_len == needle@.len(),
            j <= needle_len,
            forall|k: int| 0 <= k < j ==> hay@[i + k] == needle@[k],
        decreases needle_len - j,
    {
        if hay.get_char(i + j) != needle.get_char(j) {
            assert(!contains_at(hay@, needle@, i as int)) by {
                if contains_at(hay@, needle@, i as int) {
                    assert(hay@.subrange(i as int, i + needle@.len())[j as int] == needle@[j as int]);
                }
            }
            return false;
        }
        j += 1;
    }
    assert(hay@.subrange(i as int, i + needle@.len()) =~= needle@);
    true
}

/// Substring containment, as `str::contains` decides it: true exactly when
/// `needle`'s characters occur contiguously in `hay`.
pub fn str_contains(hay: &str, needle: &str) -> (r: bool)
    ensures
        r == contains_substring(hay@, needle@),
{
    let hay_len: usize = hay.unicode_len();
    let needle_len: usize = needle.unicode_len();
    if needle_len > hay_len {
        assert(!contains_substring(hay@, needle@)) by {
            assert forall|k: int| !contains_at(hay@, needle@, k) by {}
        }
        return false;
    }
    let bound: usize = hay_len - needle_len;
    let mut i: usize = 0;
    loop
        invariant
            hay_len == hay@.len(),
            needle_len == needle@.len(),
            needle_len <= hay_len,
            bound == hay_len - needle_len,
            i <= bound,
            forall|k: int| 0 <= k < i ==> !contains_at(hay@, needle@, k),
        decreases bound - i,
    {
        if matches_at(hay, needle, i) {
            return true;
        }
        if i == bound {
            assert(!contains_substring(hay@, needle@)) by {
                assert forall|k: int| !contains_at(hay@, needle@, k) by {
                    if 0 <= k < bound {
                        assert(!contains_at(hay@, needle@, k));
                    }
                }
            }
            return false;
        }
        i += 1;
    }
}

} // verus!

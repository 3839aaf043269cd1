//! Case-insensitive substring matching over strings, used by the
//! repository's search operation.

use vstd::prelude::*;
use vstd::string::StrSliceExecFns;

verus! {

/// The characters of `s` folded to lower case, as `str::to_lowercase`
/// produces them.
pub uninterp spec fn lower_of(s: Seq<char>) -> Seq<char>;

/// Relies on `str::to_lowercase`: the result is a function of the input
/// characters alone, and an empty string stays empty.
#[verifier::external_body]
pub(crate) fn to_lowercase(s: &str) -> (r: String)
    ensures
        r@ == lower_of(s@),
        s@.len() == 0 ==> r@.len() == 0,
{
    s.to_lowercase()
}

/// `needle` occurs in `hay` starting at position `i`.
pub open spec fn match_at(hay: Seq<char>, needle: Seq<char>, i: int) -> bool {
    &&& 0 <= i
    &&& i + needle.len() <= hay.len()
    &&& hay.subrange(i, i + needle.len()) == needle
}

/// `needle` occurs somewhere in `hay`; an empty `needle` occurs in
/// everything.
pub open spec fn contains_seq(hay: Seq<char>, needle: Seq<char>) -> bool {
    exists|i: int| match_at(hay, needle, i)
}

/// A title matches a search term when its lowercased characters contain the
/// lowercased term as a contiguous substring.
pub open spec fn title_matches(title: Seq<char>, term: Seq<char>) -> bool {
    contains_seq(lower_of(title), lower_of(term))
}

/// Whether `needle` occurs in `hay` as a contiguous substring of characters.
pub fn contains_str(hay: &str, needle: &str) -> (r: bool)
    ensures
        r == contains_seq(hay@, needle@),
{
    let hay_len: usize = hay.unicode_len();
    let needle_len: usize = needle.unicode_len();
    if needle_len > hay_len {
        proof {
            assert(forall|i: int| !match_at(hay@, needle@, i));
        }
        return false;
    }
    let mut i: usize = 0;
    loop
        invariant
            hay_len == hay@.len(),
            needle_len == needle@.len(),
            needle_len <= hay_len,
            0 <= i <= hay_len - needle_len + 1,
            forall|k: int| 0 <= k < i ==> !match_at(hay@, needle@, k),
        decreases hay_len - needle_len + 1 - i,
    {
        if i > hay_len - needle_len {
            proof {
                assert(forall|k: int| match_at(hay@, needle@, k) ==> 0 <= k <= hay_len - needle_len);
            }
            return false;
        }
        let mut j: usize = 0;
        let mut mismatch = false;
        while j < needle_len
            invariant_except_break
                !mismatch,
                forall|l: int| 0 <= l < j ==> hay@[i + l] == needle@[l],
            invariant
                hay_len == hay@.len(),
                needle_len == needle@.len(),
                i + needle_len <= hay_len,
                0 <= j <= needle_len,
            ensures
                mismatch ==> j < needle_len,
                mismatch ==> !match_at(hay@, needle@, i as int),
                !mismatch ==> forall|l: int| 0 <= l < needle@.len() ==> hay@[i + l] == needle@[l],
            decreases needle_len - j,
        {
            if hay.get_char(i + j) != needle.get_char(j) {
                proof {
                    assert(!match_at(hay@, needle@, i as int)) by {
                        if match_at(hay@, needle@, i as int) {
                            assert(hay@.subrange(i as int, i + needle@.len())[j as int] == hay@[
                                i + j
                            ]);
                        }
                    }
                }
                mismatch = true;
                break;
            }
            j = j + 1;
        }
        if !mismatch {
            proof {
                assert(hay@.subrange(i as int, i + needle@.len()) =~= needle@);
                assert(match_at(hay@, needle@, i as int));
            }
            return true;
        }
        i = i + 1;
    }
}

} // verus!

//! Exact string predicates used by manifest checks.

use vstd::prelude::*;

verus! {

/// `needle` occurs in `hay` as a contiguous run of characters.
pub open spec fn seq_contains_run(hay: Seq<char>, needle: Seq<char>) -> bool {
    exists|i: int|
        0 <= i && i + needle.len() <= hay.len() && #[trigger] hay.subrange(i, i + needle.len())
            == needle
}

/// Length in bytes of the UTF-8 encoding of `s`, as `str::len` counts it.
pub open spec fn byte_len(s: Seq<char>) -> nat {
    vstd::utf8::encode_utf8(s).len()
}

/// The UTF-8 byte length of `value` is exactly `n`.
pub fn has_byte_len(value: &String, n: usize) -> (equal: bool)
    ensures
        equal == (byte_len(value@) == n),
{
    value.as_str().as_bytes().len() == n
}

/// Character-for-character equality of two strings.
pub fn str_eq(left: &str, right: &str) -> (equal: bool)
    ensures
        equal == (left@ == right@),
{
    let n = left.unicode_len();
    let m = right.unicode_len();
    if n != m {
        return false;
    }
    let mut i: usize = 0;
    while i < n
        invariant
            n == left@.len(),
            m == right@.len(),
            n == m,
            i <= n,
            forall|j: int| 0 <= j < i ==> left@[j] == right@[j],
        decreases n - i,
    {
        if left.get_char(i) != right.get_char(i) {
            assert(left@[i as int] != right@[i as int]);
            return false;
        }
        i = i + 1;
    }
    assert(left@ =~= right@);
    true
}

/// A `String` equals a given text.
pub fn string_is(value: &String, text: &str) -> (equal: bool)
    ensures
        equal == (value@ == text@),
{
    str_eq(value.as_str(), text)
}

/// `needle` occurs somewhere inside `hay`.
pub fn str_contains(hay: &str, needle: &str) -> (found: bool)
    ensures
        found == seq_contains_run(hay@, needle@),
{
    let n = hay.unicode_len();
    let m = needle.unicode_len();
    if m > n {
        assert forall|i: int| 0 <= i && i + needle@.len() <= hay@.len() implies #[trigger] hay@.subrange(i, i + needle@.len())
            != needle@ by {}
        return false;
    }
    let mut start: usize = 0;
    while start <= n - m
        invariant
            n == hay@.len(),
            m == needle@.len(),
            m <= n,
            start <= n - m + 1,
            forall|i: int|
                0 <= i < start ==> #[trigger] hay@.subrange(i, i + needle@.len()) != needle@,
        decreases n - m + 1 - start,
    {
        let mut k: usize = 0;
        let mut same = true;
        while k < m
            invariant
                n == hay@.len(),
                m == needle@.len(),
                start + m <= n,
                k <= m,
                same == (forall|j: int| 0 <= j < k ==> hay@[start + j] == needle@[j]),
            decreases m - k,
        {
            if hay.get_char(start + k) != needle.get_char(k) {
                same = false;
            }
            k = k + 1;
        }
        if same {
            assert(hay@.subrange(start as int, start + needle@.len()) =~= needle@);
            return true;
        }
        assert(hay@.subrange(start as int, start + needle@.len())[k as int - 1] == hay@[start + k - 1]);
        start = start + 1;
    }
    false
}

} // verus!

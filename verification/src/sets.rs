//! Membership comparisons of small index lists.

use vstd::prelude::*;

verus! {

/// Both lists hold the same values, ignoring order and repetition.
pub open spec fn same_members<T>(a: Seq<T>, b: Seq<T>) -> bool {
    forall|v: T| a.contains(v) <==> b.contains(v)
}

/// `value` occurs in `values`.
pub fn contains_usize(values: &[usize], value: usize) -> (found: bool)
    ensures
        found == values@.contains(value),
{
    let mut i: usize = 0;
    while i < values.len()
        invariant
            i <= values@.len(),
            forall|k: int| 0 <= k < i ==> values@[k] != value,
        decreases values@.len() - i,
    {
        if values[i] == value {
            return true;
        }
        i = i + 1;
    }
    false
}

/// `value` occurs in `values`.
pub fn contains_u8(values: &[u8], value: u8) -> (found: bool)
    ensures
        found == values@.contains(value),
{
    let mut i: usize = 0;
    while i < values.len()
        invariant
            i <= values@.len(),
            forall|k: int| 0 <= k < i ==> values@[k] != value,
        decreases values@.len() - i,
    {
        if values[i] == value {
            return true;
        }
        i = i + 1;
    }
    false
}

/// Every value of `values` occurs in `within`.
pub fn all_in_usize(values: &[usize], within: &[usize]) -> (all: bool)
    ensures
        all == (forall|k: int| 0 <= k < values@.len() ==> within@.contains(#[trigger] values@[k])),
{
    let mut i: usize = 0;
    while i < values.len()
        invariant
            i <= values@.len(),
            forall|k: int| 0 <= k < i ==> within@.contains(#[trigger] values@[k]),
        decreases values@.len() - i,
    {
        if !contains_usize(within, values[i]) {
            return false;
        }
        i = i + 1;
    }
    true
}

fn all_in_u8(values: &[u8], within: &[u8]) -> (all: bool)
    ensures
        all == (forall|k: int| 0 <= k < values@.len() ==> within@.contains(#[trigger] values@[k])),
{
    let mut i: usize = 0;
    while i < values.len()
        invariant
            i <= values@.len(),
            forall|k: int| 0 <= k < i ==> within@.contains(#[trigger] values@[k]),
        decreases values@.len() - i,
    {
        if !contains_u8(within, values[i]) {
            return false;
        }
        i = i + 1;
    }
    true
}

/// The two lists hold the same set of values.
pub fn same_usize_members(values: &[usize], expected: &[usize]) -> (same: bool)
    ensures
        same == same_members(values@, expected@),
{
    let forward = all_in_usize(values, expected);
    let backward = all_in_usize(expected, values);
    proof {
        if forward && backward {
            assert forall|v: usize| values@.contains(v) <==> expected@.contains(v) by {
                if values@.contains(v) {
                    let k = choose|k: int| 0 <= k < values@.len() && values@[k] == v;
                    assert(expected@.contains(values@[k]));
                }
                if expected@.contains(v) {
                    let k = choose|k: int| 0 <= k < expected@.len() && expected@[k] == v;
                    assert(values@.contains(expected@[k]));
                }
            }
        } else if !forward {
            let k = choose|k: int| 0 <= k < values@.len() && !expected@.contains(#[trigger] values@[k]);
            assert(values@.contains(values@[k]));
        } else {
            let k = choose|k: int| 0 <= k < expected@.len() && !values@.contains(#[trigger] expected@[k]);
            assert(expected@.contains(expected@[k]));
        }
    }
    forward && backward
}

/// The two lists hold the same set of values.
pub fn same_u8_members(values: &[u8], expected: &[u8]) -> (same: bool)
    ensures
        same == same_members(values@, expected@),
{
    let forward = all_in_u8(values, expected);
    let backward = all_in_u8(expected, values);
    proof {
        if forward && backward {
            assert forall|v: u8| values@.contains(v) <==> expected@.contains(v) by {
                if values@.contains(v) {
                    let k = choose|k: int| 0 <= k < values@.len() && values@[k] == v;
                    assert(expected@.contains(values@[k]));
                }
                if expected@.contains(v) {
                    let k = choose|k: int| 0 <= k < expected@.len() && expected@[k] == v;
                    assert(values@.contains(expected@[k]));
                }
            }
        } else if !forward {
            let k = choose|k: int| 0 <= k < values@.len() && !expected@.contains(#[trigger] values@[k]);
            assert(values@.contains(values@[k]));
        } else {
            let k = choose|k: int| 0 <= k < expected@.len() && !values@.contains(#[trigger] expected@[k]);
            assert(expected@.contains(expected@[k]));
        }
    }
    forward && backward
}

/// Two lists of indices hold exactly the same elements in the same order.
pub fn usize_slices_equal(left: &[usize], right: &[usize]) -> (equal: bool)
    ensures
        equal == (left@ == right@),
{
    if left.len() != right.len() {
        return false;
    }
    let mut i: usize = 0;
    while i < left.len()
        invariant
            left@.len() == right@.len(),
            i <= left@.len(),
            forall|k: int| 0 <= k < i ==> left@[k] == right@[k],
        decreases left@.len() - i,
    {
        if left[i] != right[i] {
            return false;
        }
        i = i + 1;
    }
    assert(left@ =~= right@);
    true
}

/// Two byte strings are identical.
pub fn bytes_equal(left: &[u8], right: &[u8]) -> (equal: bool)
    ensures
        equal == (left@ == right@),
{
    if left.len() != right.len() {
        return false;
    }
    let mut i: usize = 0;
    while i < left.len()
        invariant
            left@.len() == right@.len(),
            i <= left@.len(),
            forall|k: int| 0 <= k < i ==> left@[k] == right@[k],
        decreases left@.len() - i,
    {
        if left[i] != right[i] {
            return false;
        }
        i = i + 1;
    }
    assert(left@ =~= right@);
    true
}

/// No value occurs twice in `values`.
pub fn distinct_usize(values: &[usize]) -> (distinct: bool)
    ensures
        distinct == values@.no_duplicates(),
{
    let mut i: usize = 0;
    while i < values.len()
        invariant
            i <= values@.len(),
            forall|a: int, b: int| 0 <= a < b < values@.len() && a < i ==> values@[a] != values@[b],
        decreases values@.len() - i,
    {
        let mut j: usize = i + 1;
        while j < values.len()
            invariant
                i < values@.len(),
                i + 1 <= j <= values@.len(),
                forall|a: int, b: int| 0 <= a < b < values@.len() && a < i ==> values@[a] != values@[b],
                forall|b: int| i < b < j ==> values@[i as int] != values@[b],
            decreases values@.len() - j,
        {
            if values[i] == values[j] {
                return false;
            }
            j = j + 1;
        }
        i = i + 1;
    }
    true
}

/// The two flag lists are equal.
pub fn flags_equal(left: &[bool], right: &[bool]) -> (equal: bool)
    ensures
        equal == (left@ == right@),
{
    if left.len() != right.len() {
        return false;
    }
    let mut i: usize = 0;
    while i < left.len()
        invariant
            left@.len() == right@.len(),
            i <= left@.len(),
            forall|k: int| 0 <= k < i ==> left@[k] == right@[k],
        decreases left@.len() - i,
    {
        if left[i] != right[i] {
            return false;
        }
        i = i + 1;
    }
    assert(left@ =~= right@);
    true
}

/// A fresh copy of `bytes`.
pub fn copy_bytes(bytes: &[u8]) -> (copy: Vec<u8>)
    ensures
        copy@ == bytes@,
{
    let mut copy: Vec<u8> = Vec::with_capacity(bytes.len());
    let mut k: usize = 0;
    while k < bytes.len()
        invariant
            k <= bytes@.len(),
            copy@ == bytes@.take(k as int),
        decreases bytes@.len() - k,
    {
        copy.push(bytes[k]);
        assert(bytes@.take(k + 1) =~= bytes@.take(k as int).push(bytes@[k as int]));
        k = k + 1;
    }
    assert(bytes@.take(k as int) =~= bytes@);
    copy
}

} // verus!

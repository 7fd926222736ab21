use vstd::prelude::*;

use std::ops::Range;

verus! {

/// Whether `pattern` occurs in `bytes` at index `i`.
pub open spec fn occurs_at(bytes: Seq<u8>, pattern: Seq<u8>, i: int) -> bool {
    0 <= i && i + pattern.len() <= bytes.len() && bytes.subrange(i, i + pattern.len()) == pattern
}

/// Whether `i` is the first index at which `pattern` occurs in `bytes`.
pub open spec fn is_first_occurrence(bytes: Seq<u8>, pattern: Seq<u8>, i: int) -> bool {
    &&& occurs_at(bytes, pattern, i)
    &&& forall|j: int| 0 <= j < i ==> !#[trigger] occurs_at(bytes, pattern, j)
}

/// The first index at which `pattern` occurs in `bytes`, if it occurs.
pub open spec fn first_occurrence(bytes: Seq<u8>, pattern: Seq<u8>) -> Option<int> {
    if exists|i: int| is_first_occurrence(bytes, pattern, i) {
        Some(choose|i: int| is_first_occurrence(bytes, pattern, i))
    } else {
        None
    }
}

/// Whether `pattern` occurs in `bytes` at index `i`.
fn matches_at(bytes: &[u8], pattern: &[u8], i: usize) -> (r: bool)
    requires
        i + pattern@.len() <= bytes@.len(),
    ensures
        r == occurs_at(bytes@, pattern@, i as int),
{
    let n = bytes.len();
    let mut k: usize = 0;
    while k < pattern.len()
        invariant
            k <= pattern@.len(),
            i + pattern@.len() <= n == bytes@.len(),
            forall|m: int| 0 <= m < k ==> bytes@[i + m] == #[trigger] pattern@[m],
        decreases pattern@.len() - k,
    {
        if bytes[i + k] != pattern[k] {
            assert(bytes@.subrange(i as int, i + pattern@.len())[k as int] != pattern@[k as int]);
            return false;
        }
        k = k + 1;
    }
    assert(bytes@.subrange(i as int, i + pattern@.len()) =~= pattern@);
    true
}

/// The range of the first occurrence of `pattern` in `bytes`, if it occurs.
pub fn get_sequence_range(bytes: &[u8], pattern: &[u8]) -> (r: Option<Range<usize>>)
    requires
        pattern@.len() > 0,
    ensures
        r is None ==> first_occurrence(bytes@, pattern@) is None,
        r matches Some(found) ==> first_occurrence(bytes@, pattern@) == Some(found.start as int)
            && found.end == found.start + pattern@.len(),
{
    let n = bytes.len();
    let m = pattern.len();
    if m > n {
        assert forall|k: int| !is_first_occurrence(bytes@, pattern@, k) by {}
        return None;
    }
    let mut i: usize = 0;
    while i <= n - m
        invariant
            0 < m == pattern@.len(),
            n == bytes@.len(),
            m <= n,
            i <= n - m + 1,
            forall|j: int| 0 <= j < i ==> !#[trigger] occurs_at(bytes@, pattern@, j),
        decreases n - m + 1 - i,
    {
        if matches_at(bytes, pattern, i) {
            assert(is_first_occurrence(bytes@, pattern@, i as int));
            proof {
                let k = choose|k: int| is_first_occurrence(bytes@, pattern@, k);
                if k < i {
                    assert(!occurs_at(bytes@, pattern@, k));
                } else if k > i {
                    assert(!occurs_at(bytes@, pattern@, i as int));
                }
            }
            return Some(Range { start: i, end: i + m });
        }
        i = i + 1;
    }
    assert forall|k: int| !is_first_occurrence(bytes@, pattern@, k) by {
        if 0 <= k < i {
            assert(!occurs_at(bytes@, pattern@, k));
        }
    }
    None
}

} // verus!

//! Searching a byte sequence: what "the first occurrence" means, how it is
//! named in contracts, and the contracts under which the `memchr` crate is
//! called.
use vstd::prelude::*;

verus! {

/// `i` is the least index of `s` that holds one of `needles`.
pub open spec fn is_first_of(s: Seq<u8>, needles: Set<u8>, i: int) -> bool {
    &&& 0 <= i < s.len()
    &&& needles.contains(s[i])
    &&& forall|j: int| 0 <= j < i ==> !needles.contains(#[trigger] s[j])
}

/// No byte of `s` is one of `needles`.
pub open spec fn has_none_of(s: Seq<u8>, needles: Set<u8>) -> bool {
    forall|j: int| 0 <= j < s.len() ==> !needles.contains(#[trigger] s[j])
}

/// The least index of `s` that holds one of `needles`, if there is one.
pub open spec fn first_of(s: Seq<u8>, needles: Set<u8>) -> Option<int> {
    if exists|i: int| is_first_of(s, needles, i) {
        Some(choose|i: int| is_first_of(s, needles, i))
    } else {
        None
    }
}

/// `pat` stands in `s` at index `i`.
pub open spec fn matches_at(s: Seq<u8>, pat: Seq<u8>, i: int) -> bool {
    &&& 0 <= i
    &&& i + pat.len() <= s.len()
    &&& s.subrange(i, i + pat.len()) == pat
}

/// `i` is the least index at which `pat` stands in `s`.
pub open spec fn is_first_match(s: Seq<u8>, pat: Seq<u8>, i: int) -> bool {
    &&& matches_at(s, pat, i)
    &&& forall|j: int| 0 <= j < i ==> !matches_at(s, pat, j)
}

/// `pat` stands nowhere in `s`.
pub open spec fn has_no_match(s: Seq<u8>, pat: Seq<u8>) -> bool {
    forall|j: int| !matches_at(s, pat, j)
}

/// The least index at which `pat` stands in `s`, if it stands anywhere.
pub open spec fn first_match(s: Seq<u8>, pat: Seq<u8>) -> Option<int> {
    if exists|i: int| is_first_match(s, pat, i) {
        Some(choose|i: int| is_first_match(s, pat, i))
    } else {
        None
    }
}

/// Where one of `needles` occurs at `k`, there is a first occurrence.
proof fn lemma_some_first_of(s: Seq<u8>, needles: Set<u8>, k: int)
    requires
        0 <= k < s.len(),
        needles.contains(s[k]),
    ensures
        exists|i: int| is_first_of(s, needles, i),
    decreases k,
{
    if exists|j: int| 0 <= j < k && needles.contains(s[j]) {
        let j = choose|j: int| 0 <= j < k && needles.contains(s[j]);
        lemma_some_first_of(s, needles, j);
    } else {
        assert(is_first_of(s, needles, k));
    }
}

/// Where `pat` stands at `k`, there is a first place at which it stands.
proof fn lemma_some_first_match(s: Seq<u8>, pat: Seq<u8>, k: int)
    requires
        matches_at(s, pat, k),
    ensures
        exists|i: int| is_first_match(s, pat, i),
    decreases k,
{
    if exists|j: int| 0 <= j < k && matches_at(s, pat, j) {
        let j = choose|j: int| 0 <= j < k && matches_at(s, pat, j);
        lemma_some_first_match(s, pat, j);
    } else {
        assert(is_first_match(s, pat, k));
    }
}

/// `first_of` is the first occurrence where there is one, and `None` only
/// where none of the needles occurs.
pub proof fn lemma_first_of(s: Seq<u8>, needles: Set<u8>)
    ensures
        match first_of(s, needles) {
            Some(i) => is_first_of(s, needles, i),
            None => has_none_of(s, needles),
        },
{
    if first_of(s, needles) is None {
        assert forall|j: int| 0 <= j < s.len() implies !needles.contains(#[trigger] s[j]) by {
            if needles.contains(s[j]) {
                lemma_some_first_of(s, needles, j);
            }
        }
    }
}

/// The first occurrence is unique: an index known to be the first is what
/// `first_of` names.
pub proof fn lemma_first_of_is(s: Seq<u8>, needles: Set<u8>, i: int)
    requires
        is_first_of(s, needles, i),
    ensures
        first_of(s, needles) == Some(i),
{
}

/// `first_match` is the first place at which the pattern stands where there
/// is one, and `None` only where it stands nowhere.
pub proof fn lemma_first_match(s: Seq<u8>, pat: Seq<u8>)
    ensures
        match first_match(s, pat) {
            Some(i) => is_first_match(s, pat, i),
            None => has_no_match(s, pat),
        },
{
    if first_match(s, pat) is None {
        assert forall|j: int| !matches_at(s, pat, j) by {
            if matches_at(s, pat, j) {
                lemma_some_first_match(s, pat, j);
            }
        }
    }
}

/// The first match is unique: an index known to be the first is what
/// `first_match` names.
pub proof fn lemma_first_match_is(s: Seq<u8>, pat: Seq<u8>, i: int)
    requires
        is_first_match(s, pat, i),
    ensures
        first_match(s, pat) == Some(i),
{
}

/// `memchr::memchr` returns the index of the first byte of `haystack` that
/// equals `needle`, and `None` where no byte of it does.
pub assume_specification[ memchr::memchr ](needle: u8, haystack: &[u8]) -> (found: Option<usize>)
    ensures
        match found {
            Some(i) => is_first_of(haystack@, set![needle], i as int),
            None => has_none_of(haystack@, set![needle]),
        },
;

/// `memchr::memchr2` returns the index of the first byte of `haystack` that
/// equals `needle1` or `needle2`, and `None` where no byte of it does.
pub assume_specification[ memchr::memchr2 ](needle1: u8, needle2: u8, haystack: &[u8]) -> (found:
    Option<usize>)
    ensures
        match found {
            Some(i) => is_first_of(haystack@, set![needle1, needle2], i as int),
            None => has_none_of(haystack@, set![needle1, needle2]),
        },
;

/// `memchr::memchr3` returns the index of the first byte of `haystack` that
/// equals `needle1`, `needle2` or `needle3`, and `None` where no byte of it
/// does.
pub assume_specification[ memchr::memchr3 ](
    needle1: u8,
    needle2: u8,
    needle3: u8,
    haystack: &[u8],
) -> (found: Option<usize>)
    ensures
        match found {
            Some(i) => is_first_of(haystack@, set![needle1, needle2, needle3], i as int),
            None => has_none_of(haystack@, set![needle1, needle2, needle3]),
        },
;

} // verus!

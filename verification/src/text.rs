//! Marker-delimited fields inside a flat `key=value` text payload.
//!
//! A device's text record is one undelimited run such as
//! `id=..fn=Salonca=..md=Chromecast Ultraic=..`; a field is the text strictly
//! between a start marker (`fn=`) and the next end marker (`ca=`) after it.

use vstd::prelude::*;

verus! {

/// True when `pat` occurs in `s` starting at index `i`.
pub open spec fn matches_at(s: Seq<char>, pat: Seq<char>, i: int) -> bool {
    0 <= i && i + pat.len() <= s.len() && s.subrange(i, i + pat.len() as int) == pat
}

/// The index of the first occurrence of `pat` in `s`.
pub open spec fn find_sub(s: Seq<char>, pat: Seq<char>) -> Option<int>
    decreases s.len(),
{
    if pat.len() > s.len() {
        None
    } else if s.subrange(0, pat.len() as int) == pat {
        Some(0)
    } else if s.len() == 0 {
        None
    } else {
        match find_sub(s.drop_first(), pat) {
            Some(i) => Some(i + 1),
            None => None,
        }
    }
}

/// Occurrences in the tail of `s` are occurrences of `s` shifted by one.
proof fn lemma_matches_at_shift(s: Seq<char>, pat: Seq<char>, j: int)
    requires
        s.len() > 0,
        0 <= j,
    ensures
        matches_at(s, pat, j + 1) <==> matches_at(s.drop_first(), pat, j),
{
    if 0 <= j && j + pat.len() <= s.drop_first().len() {
        assert(s.subrange(j + 1, j + 1 + pat.len() as int) =~= s.drop_first().subrange(
            j,
            j + pat.len() as int,
        ));
    }
}

/// `find_sub` returns the first occurrence: a real occurrence with none
/// before it, or `None` when the pattern does not occur at all.
pub proof fn lemma_find_sub_first(s: Seq<char>, pat: Seq<char>)
    ensures
        match find_sub(s, pat) {
            Some(i) => matches_at(s, pat, i) && (forall|j: int|
                0 <= j < i ==> !matches_at(s, pat, j)),
            None => forall|j: int| !matches_at(s, pat, j),
        },
    decreases s.len(),
{
    if pat.len() > s.len() {
        assert(forall|j: int| !matches_at(s, pat, j));
    } else if s.subrange(0, pat.len() as int) == pat {
    } else if s.len() == 0 {
        assert(s.subrange(0, pat.len() as int) =~= pat);
    } else {
        lemma_find_sub_first(s.drop_first(), pat);
        match find_sub(s.drop_first(), pat) {
            Some(i) => {
                lemma_matches_at_shift(s, pat, i);
                assert(matches_at(s, pat, i + 1));
                assert forall|j: int| 0 <= j < i + 1 implies !matches_at(s, pat, j) by {
                    if j == 0 {
                        assert(s.subrange(0, pat.len() as int) != pat);
                    } else {
                        lemma_matches_at_shift(s, pat, j - 1);
                    }
                }
            },
            None => {
                assert forall|j: int| !matches_at(s, pat, j) by {
                    if j == 0 {
                        assert(s.subrange(0, pat.len() as int) != pat);
                    } else if j > 0 {
                        lemma_matches_at_shift(s, pat, j - 1);
                    }
                }
            },
        }
    }
}

/// An occurrence inside the suffix of `s` that starts at `a` is an
/// occurrence in `s` at the shifted position, and the other way round.
proof fn lemma_matches_at_suffix(s: Seq<char>, pat: Seq<char>, a: int, j: int)
    requires
        0 <= a <= s.len(),
        0 <= j,
    ensures
        matches_at(s.subrange(a, s.len() as int), pat, j) <==> matches_at(s, pat, a + j),
{
    let suffix = s.subrange(a, s.len() as int);
    if 0 <= j && j + pat.len() <= suffix.len() {
        assert(suffix.subrange(j, j + pat.len() as int) =~= s.subrange(
            a + j,
            a + j + pat.len() as int,
        ));
    }
}

/// The text strictly between the first occurrence of `start` and the next
/// occurrence of `end` after it, when both are present.
pub open spec fn field_between(payload: Seq<char>, start: Seq<char>, end: Seq<char>) -> Option<
    Seq<char>,
> {
    match find_sub(payload, start) {
        None => None,
        Some(i) => {
            let rest = payload.subrange(i + start.len(), payload.len() as int);
            match find_sub(rest, end) {
                None => None,
                Some(j) => Some(rest.subrange(0, j)),
            }
        },
    }
}

/// A field is present as soon as the end marker occurs anywhere at or after
/// the end of some occurrence of the start marker.
pub proof fn lemma_field_between_found(
    payload: Seq<char>,
    start: Seq<char>,
    end: Seq<char>,
    i: int,
    j: int,
)
    requires
        matches_at(payload, start, i),
        matches_at(payload, end, j),
        i + start.len() <= j,
    ensures
        field_between(payload, start, end) is Some,
{
    lemma_find_sub_first(payload, start);
    let i0 = find_sub(payload, start).unwrap();
    assert(i0 <= i);
    let rest = payload.subrange(i0 + start.len(), payload.len() as int);
    lemma_matches_at_suffix(payload, end, i0 + start.len() as int, j - i0 - start.len());
    assert(matches_at(rest, end, j - i0 - start.len()));
    lemma_find_sub_first(rest, end);
}

/// What a present field is, exactly: the text strictly between the first
/// start marker and the first end marker after it.
pub proof fn lemma_field_between_exact(payload: Seq<char>, start: Seq<char>, end: Seq<char>)
    requires
        field_between(payload, start, end) is Some,
    ensures
        exists|i: int, j: int|
            {
                &&& matches_at(payload, start, i)
                &&& (forall|k: int| 0 <= k < i ==> !matches_at(payload, start, k))
                &&& i + start.len() <= j
                &&& matches_at(payload, end, j)
                &&& (forall|k: int| i + start.len() <= k < j ==> !matches_at(payload, end, k))
                &&& field_between(payload, start, end).unwrap() == payload.subrange(
                    i + start.len(),
                    j,
                )
            },
{
    lemma_find_sub_first(payload, start);
    let i = find_sub(payload, start).unwrap();
    let rest = payload.subrange(i + start.len(), payload.len() as int);
    lemma_find_sub_first(rest, end);
    let j0 = find_sub(rest, end).unwrap();
    let j = i + start.len() + j0;
    lemma_matches_at_suffix(payload, end, i + start.len() as int, j0);
    assert forall|k: int| i + start.len() <= k < j implies !matches_at(payload, end, k) by {
        lemma_matches_at_suffix(payload, end, i + start.len() as int, k - i - start.len());
    }
    assert(field_between(payload, start, end).unwrap() =~= payload.subrange(
        i + start.len(),
        j,
    ));
    assert({
        &&& matches_at(payload, start, i)
        &&& (forall|k: int| 0 <= k < i ==> !matches_at(payload, start, k))
        &&& i + start.len() <= j
        &&& matches_at(payload, end, j)
        &&& (forall|k: int| i + start.len() <= k < j ==> !matches_at(payload, end, k))
        &&& field_between(payload, start, end).unwrap() == payload.subrange(i + start.len(), j)
    });
}

/// The index of the last occurrence of `c` in `s`.
pub open spec fn find_last(s: Seq<char>, c: char) -> Option<int>
    decreases s.len(),
{
    if s.len() == 0 {
        None
    } else if s.last() == c {
        Some(s.len() - 1)
    } else {
        find_last(s.drop_last(), c)
    }
}

/// `find_last` returns the last occurrence: a real occurrence with none
/// after it, or `None` when the character does not occur at all.
pub proof fn lemma_find_last_is_last(s: Seq<char>, c: char)
    ensures
        match find_last(s, c) {
            Some(i) => 0 <= i < s.len() && s[i] == c && (forall|j: int|
                i < j < s.len() ==> s[j] != c),
            None => forall|j: int| 0 <= j < s.len() ==> s[j] != c,
        },
    decreases s.len(),
{
    if s.len() == 0 {
    } else if s.last() == c {
    } else {
        lemma_find_last_is_last(s.drop_last(), c);
        assert(forall|j: int| 0 <= j < s.len() - 1 ==> s[j] == s.drop_last()[j]);
    }
}

/// The position of the last occurrence of `c` in `s`, if it occurs.
pub fn rfind_char(s: &str, c: char) -> (r: Option<usize>)
    ensures
        match r {
            Some(i) => find_last(s@, c) == Some(i as int),
            None => find_last(s@, c) is None,
        },
{
    let mut k = s.unicode_len();
    proof {
        assert(s@.take(k as int) =~= s@);
    }
    while k > 0
        invariant
            0 <= k <= s@.len(),
            find_last(s@, c) == find_last(s@.take(k as int), c),
        decreases k,
    {
        let ch = s.get_char(k - 1);
        if ch == c {
            proof {
                assert(s@.take(k as int).last() == s@[k - 1]);
            }
            return Some(k - 1);
        }
        proof {
            assert(s@.take(k as int).last() == s@[k - 1]);
            assert(s@.take(k as int).drop_last() =~= s@.take(k as int - 1));
        }
        k -= 1;
    }
    proof {
        assert(s@.take(0) =~= Seq::<char>::empty());
    }
    None
}

/// Whether two strings hold the same characters.
pub fn str_eq(a: &str, b: &str) -> (r: bool)
    ensures
        r <==> a@ == b@,
{
    let n = a.unicode_len();
    if n != b.unicode_len() {
        return false;
    }
    let mut i: usize = 0;
    while i < n
        invariant
            n == a@.len(),
            n == b@.len(),
            0 <= i <= n,
            forall|j: int| 0 <= j < i ==> a@[j] == b@[j],
        decreases n - i,
    {
        if a.get_char(i) != b.get_char(i) {
            return false;
        }
        i += 1;
    }
    proof {
        assert(a@ =~= b@);
    }
    true
}

/// The position of the first occurrence of `pat` in `s`, if it occurs.
pub fn find_substring(s: &str, pat: &str) -> (r: Option<usize>)
    ensures
        match r {
            Some(i) => find_sub(s@, pat@) == Some(i as int),
            None => find_sub(s@, pat@) is None,
        },
{
    let n = s.unicode_len();
    let m = pat.unicode_len();
    if m > n {
        return None;
    }
    if m == 0 {
        proof {
            assert(s@.subrange(0, 0) =~= pat@);
        }
        return Some(0);
    }
    let mut i: usize = 0;
    proof {
        assert(s@.subrange(0, n as int) =~= s@);
    }
    while i <= n - m
        invariant
            1 <= m <= n,
            n == s@.len(),
            m == pat@.len(),
            0 <= i <= n - m + 1,
            match find_sub(s@.subrange(i as int, n as int), pat@) {
                Some(k) => find_sub(s@, pat@) == Some(k + i),
                None => find_sub(s@, pat@) is None,
            },
        decreases n - i,
    {
        let mut j: usize = 0;
        let mut mismatch = false;
        while j < m && !mismatch
            invariant
                1 <= m <= n,
                n == s@.len(),
                m == pat@.len(),
                0 <= i <= n - m,
                0 <= j <= m,
                !mismatch ==> forall|k: int| 0 <= k < j ==> s@[i + k] == pat@[k],
                mismatch ==> s@.subrange(i as int, i + m) != pat@,
            decreases m - j + (if mismatch { 0int } else { 1int }),
        {
            let a = s.get_char(i + j);
            let b = pat.get_char(j);
            if a == b {
                j += 1;
            } else {
                proof {
                    assert(s@.subrange(i as int, i + m)[j as int] == s@[i + j]);
                }
                mismatch = true;
            }
        }
        if !mismatch {
            proof {
                assert(s@.subrange(i as int, i + m) =~= pat@);
                let suffix = s@.subrange(i as int, n as int);
                assert(suffix.subrange(0, m as int) =~= s@.subrange(i as int, i + m));
                assert(find_sub(suffix, pat@) == Some(0int));
            }
            return Some(i);
        }
        proof {
            let suffix = s@.subrange(i as int, n as int);
            let next = s@.subrange(i as int + 1, n as int);
            assert(suffix.drop_first() =~= next);
            assert(suffix.subrange(0, m as int) =~= s@.subrange(i as int, i + m));
            assert(suffix.subrange(0, m as int) != pat@);
        }
        i += 1;
    }
    proof {
        let suffix = s@.subrange(i as int, n as int);
        assert(pat@.len() > suffix.len());
    }
    None
}

/// The field strictly between the first `start` marker and the next `end`
/// marker after it, or `None` when the pair is not present.
pub fn extract_field(payload: &str, start: &str, end: &str) -> (r: Option<String>)
    ensures
        r is Some <==> field_between(payload@, start@, end@) is Some,
        r is Some ==> r.unwrap()@ == field_between(payload@, start@, end@).unwrap(),
{
    match find_substring(payload, start) {
        None => None,
        Some(i) => {
            proof {
                lemma_find_sub_first(payload@, start@);
            }
            let plen = payload.unicode_len();
            let from = i + start.unicode_len();
            let rest = payload.substring_char(from, plen);
            match find_substring(rest, end) {
                None => None,
                Some(j) => {
                    proof {
                        lemma_find_sub_first(rest@, end@);
                    }
                    let field = rest.substring_char(0, j);
                    Some(field.to_owned())
                },
            }
        },
    }
}

} // verus!

//! Small verified string tests the two telemetry sweeps match labels with.

use vstd::prelude::*;
use vstd::string::StrSliceExecFns;

verus! {

/// `p` opens `s`.
pub open spec fn spec_starts_with(s: Seq<char>, p: Seq<char>) -> bool {
    p.len() <= s.len() && s.take(p.len() as int) == p
}

/// `p` closes `s`.
pub open spec fn spec_ends_with(s: Seq<char>, p: Seq<char>) -> bool {
    p.len() <= s.len() && s.skip(s.len() - p.len()) == p
}

/// The index of the first occurrence of `c` in `s`, or `s.len()` when there
/// is none.
pub open spec fn char_index(s: Seq<char>, c: char) -> int
    decreases s.len(),
{
    if s.len() == 0 {
        0
    } else if s[0] == c {
        0
    } else {
        1 + char_index(s.skip(1), c)
    }
}

/// The first occurrence cannot come before `k` when the first `k`
/// characters differ from `c`; when character `k` is `c`, it is the first.
pub proof fn lemma_char_index_from_prefix(s: Seq<char>, c: char, k: int)
    requires
        0 <= k <= s.len(),
        forall|j: int| 0 <= j < k ==> #[trigger] s[j] != c,
    ensures
        k <= char_index(s, c) <= s.len(),
        k < s.len() && s[k] == c ==> char_index(s, c) == k,
    decreases k,
{
    lemma_char_index_le_len(s, c);
    if k > 0 {
        assert(s[0] != c);
        assert forall|j: int| 0 <= j < k - 1 implies #[trigger] s.skip(1)[j] != c by {
            assert(s.skip(1)[j] == s[j + 1]);
        }
        lemma_char_index_from_prefix(s.skip(1), c, k - 1);
        if k < s.len() && s[k] == c {
            assert(s.skip(1)[k - 1] == s[k]);
        }
    }
}

/// The first occurrence lies within the string, or just past it.
pub proof fn lemma_char_index_le_len(s: Seq<char>, c: char)
    ensures
        0 <= char_index(s, c) <= s.len(),
    decreases s.len(),
{
    if s.len() > 0 && s[0] != c {
        lemma_char_index_le_len(s.skip(1), c);
    }
}

/// Whether the two strings hold the same characters.
pub fn str_eq(a: &str, b: &str) -> (r: bool)
    ensures
        r == (a@ == b@),
{
    let sa: String = a.to_owned();
    let sb: String = b.to_owned();
    sa == sb
}

/// Whether `p` opens `s`.
pub fn str_starts_with(s: &str, p: &str) -> (r: bool)
    ensures
        r == spec_starts_with(s@, p@),
{
    let n = p.unicode_len();
    if s.unicode_len() < n {
        return false;
    }
    str_eq(s.substring_char(0, n), p)
}

/// Whether `p` closes `s`.
pub fn str_ends_with(s: &str, p: &str) -> (r: bool)
    ensures
        r == spec_ends_with(s@, p@),
{
    let n = p.unicode_len();
    let sn = s.unicode_len();
    if sn < n {
        return false;
    }
    str_eq(s.substring_char(sn - n, sn), p)
}

/// The index of the first occurrence of `c` in `s`, or the length of `s`
/// when there is none.
pub fn find_first(s: &str, c: char) -> (r: usize)
    ensures
        r == char_index(s@, c),
        r <= s@.len(),
        r < s@.len() ==> s@[r as int] == c,
        forall|j: int| 0 <= j < r ==> s@[j] != c,
{
    let n = s.unicode_len();
    let mut i: usize = 0;
    loop
        invariant
            n == s@.len(),
            i <= n,
            forall|j: int| 0 <= j < i ==> s@[j] != c,
        ensures
            i <= n,
            i < n ==> s@[i as int] == c,
            forall|j: int| 0 <= j < i ==> s@[j] != c,
        decreases n - i,
    {
        if i >= n {
            break;
        }
        if s.get_char(i) == c {
            break;
        }
        i = i + 1;
    }
    proof {
        lemma_char_index_from_prefix(s@, c, i as int);
    }
    i
}

} // verus!

//! Small operations on paths and names, character by character.
use vstd::prelude::*;
use crate::mount_table::{is_blank, is_blank_char};

verus! {

/// Index of the last `/` in `s`, or -1 when there is none.
pub open spec fn last_slash(s: Seq<char>) -> int
    decreases s.len(),
{
    if s.len() == 0 {
        -1
    } else if s.last() == '/' {
        s.len() - 1
    } else {
        last_slash(s.drop_last())
    }
}

/// The final `/`-delimited segment of a path.
pub open spec fn last_segment(s: Seq<char>) -> Seq<char> {
    s.subrange(last_slash(s) + 1, s.len() as int)
}

pub open spec fn is_digit(c: char) -> bool {
    '0' <= c <= '9'
}

/// A character that [`strip_end`] removes: an ASCII digit when `digits`,
/// a blank otherwise.
pub open spec fn trailing_kind(c: char, digits: bool) -> bool {
    if digits {
        is_digit(c)
    } else {
        is_blank(c)
    }
}

/// `s` without its trailing characters of the given kind.
pub open spec fn strip_end(s: Seq<char>, digits: bool) -> Seq<char>
    decreases s.len(),
{
    if s.len() > 0 && trailing_kind(s.last(), digits) {
        strip_end(s.drop_last(), digits)
    } else {
        s
    }
}

/// Removes the trailing ASCII digits of `s` when `digits`, its trailing
/// blanks otherwise.
pub fn strip_trailing(s: &str, digits: bool) -> (r: &str)
    ensures
        r@ == strip_end(s@, digits),
{
    let n = s.unicode_len();
    let mut k: usize = n;
    assert(s@.subrange(0, n as int) =~= s@);
    while k > 0
        invariant
            n == s@.len(),
            k <= n,
            strip_end(s@, digits) == strip_end(s@.subrange(0, k as int), digits),
        decreases k,
    {
        let c = s.get_char(k - 1);
        let strip = if digits {
            '0' <= c && c <= '9'
        } else {
            is_blank_char(c)
        };
        assert(s@.subrange(0, k as int).last() == c);
        if !strip {
            return s.substring_char(0, k);
        }
        assert(s@.subrange(0, k as int).drop_last() =~= s@.subrange(0, k - 1));
        k = k - 1;
    }
    s.substring_char(0, 0)
}

/// Whether `p` is a prefix of `s`.
pub fn has_prefix(s: &str, p: &str) -> (r: bool)
    ensures
        r == p@.is_prefix_of(s@),
{
    let n = s.unicode_len();
    let m = p.unicode_len();
    if m > n {
        return false;
    }
    let mut i: usize = 0;
    while i < m
        invariant
            n == s@.len(),
            m == p@.len(),
            m <= n,
            i <= m,
            forall|k: int| 0 <= k < i ==> s@[k] == p@[k],
        decreases m - i,
    {
        if s.get_char(i) != p.get_char(i) {
            return false;
        }
        i = i + 1;
    }
    assert(s@.subrange(0, m as int) =~= p@);
    true
}

/// The final `/`-delimited segment of a path.
pub fn final_segment(s: &str) -> (r: &str)
    ensures
        r@ == last_segment(s@),
{
    let n = s.unicode_len();
    let mut k: usize = n;
    assert(s@.subrange(0, n as int) =~= s@);
    while k > 0
        invariant
            n == s@.len(),
            k <= n,
            last_slash(s@) == last_slash(s@.subrange(0, k as int)),
            forall|j: int| k <= j < n ==> s@[j] != '/',
        decreases k,
    {
        if s.get_char(k - 1) == '/' {
            assert(s@.subrange(0, k as int).last() == '/');
            return s.substring_char(k, n);
        }
        assert(s@.subrange(0, k as int).drop_last() =~= s@.subrange(0, k - 1));
        k = k - 1;
    }
    s.substring_char(0, n)
}

} // verus!

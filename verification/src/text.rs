//! Character-level predicates on strings (substring, prefix, suffix, equality).

use vstd::prelude::*;
use vstd::string::StrSliceExecFns;

verus! {

/// `needle` occurs as a contiguous run of characters inside `hay`.
pub open spec fn has_substring(hay: Seq<char>, needle: Seq<char>) -> bool {
    exists|i: int|
        0 <= i && i + needle.len() <= hay.len() && #[trigger] hay.subrange(i, i + needle.len())
            == needle
}

/// The characters of `s`, in order.
pub fn chars_of(s: &str) -> (r: Vec<char>)
    ensures
        r@ == s@,
{
    let n = s.unicode_len();
    let mut out: Vec<char> = Vec::new();
    let mut i: usize = 0;
    while i < n
        invariant
            n == s@.len(),
            i <= n,
            out@ == s@.subrange(0, i as int),
        decreases n - i,
    {
        let c = s.get_char(i);
        out.push(c);
        i += 1;
        assert(out@ =~= s@.subrange(0, i as int));
    }
    assert(out@ =~= s@);
    out
}

fn chars_match_at(hay: &Vec<char>, needle: &Vec<char>, start: usize) -> (r: bool)
    requires
        start + needle@.len() <= hay@.len(),
    ensures
        r == (hay@.subrange(start as int, start + needle@.len()) == needle@),
{
    let n = needle.len();
    let m = hay.len();
    let mut j: usize = 0;
    while j < n
        invariant
            n == needle@.len(),
            m == hay@.len(),
            start + n <= hay@.len(),
            j <= n,
            forall|k: int| 0 <= k < j ==> hay@[start + k] == needle@[k],
        decreases n - j,
    {
        if hay[start + j] != needle[j] {
            assert(hay@.subrange(start as int, start + n)[j as int] != needle@[j as int]);
            return false;
        }
        j += 1;
    }
    assert(hay@.subrange(start as int, start + n) =~= needle@);
    true
}

/// Whether `needle` occurs inside `hay`.
pub fn text_contains(hay: &str, needle: &str) -> (r: bool)
    ensures
        r == has_substring(hay@, needle@),
{
    let h = chars_of(hay);
    let n = chars_of(needle);
    if n.len() > h.len() {
        return false;
    }
    let hl = h.len();
    let last = hl - n.len();
    let mut i: usize = 0;
    while i < last
        invariant
            h@ == hay@,
            hl == h@.len(),
            n@ == needle@,
            last == h@.len() - n@.len(),
            n@.len() <= h@.len(),
            i <= last,
            forall|k: int| 0 <= k < i ==> #[trigger] h@.subrange(k, k + n@.len()) != n@,
        decreases last - i,
    {
        if chars_match_at(&h, &n, i) {
            return true;
        }
        i += 1;
    }
    chars_match_at(&h, &n, last)
}

/// Whether `hay` begins with `prefix`.
pub fn text_starts_with(hay: &str, prefix: &str) -> (r: bool)
    ensures
        r == prefix@.is_prefix_of(hay@),
{
    let h = chars_of(hay);
    let p = chars_of(prefix);
    if p.len() > h.len() {
        return false;
    }
    let r = chars_match_at(&h, &p, 0);
    proof {
        if r {
            assert(p@ =~= h@.subrange(0, p@.len() as int));
        } else {
            assert(!(p@ =~= h@.subrange(0, p@.len() as int)));
        }
    }
    r
}

/// Whether `hay` ends with `suffix`.
pub fn text_ends_with(hay: &str, suffix: &str) -> (r: bool)
    ensures
        r == suffix@.is_suffix_of(hay@),
{
    let h = chars_of(hay);
    let s = chars_of(suffix);
    if s.len() > h.len() {
        return false;
    }
    let r = chars_match_at(&h, &s, h.len() - s.len());
    proof {
        let lo = h@.len() - s@.len();
        if r {
            assert(s@ =~= h@.subrange(lo, h@.len() as int));
        } else {
            assert(!(s@ =~= h@.subrange(lo, h@.len() as int)));
        }
    }
    r
}

/// Whether `a` and `b` hold the same characters.
pub fn text_eq(a: &str, b: &str) -> (r: bool)
    ensures
        r == (a@ == b@),
{
    let x = chars_of(a);
    let y = chars_of(b);
    if x.len() != y.len() {
        return false;
    }
    let r = chars_match_at(&x, &y, 0);
    proof {
        assert(x@.subrange(0, y@.len() as int) =~= x@);
    }
    r
}

} // verus!

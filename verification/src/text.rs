//! Character-sequence utilities shared by the lexer and the path logic.
//!
//! Source text and paths are handled as vectors of characters, so that every
//! comparison and every slice is verified against its `Seq<char>` view.

use vstd::prelude::*;

verus! {

/// Copies a string into a vector of its characters.
pub fn text_chars(s: &str) -> (r: Vec<char>)
    ensures
        r@ === s@,
{
    let n = s.unicode_len();
    let mut r: Vec<char> = Vec::new();
    let mut i: usize = 0;
    while i < n
        invariant
            n == s@.len(),
            i <= n,
            r@ === s@.take(i as int),
        decreases n - i,
    {
        r.push(s.get_char(i));
        i = i + 1;
        proof {
            assert(r@ =~= s@.take(i as int));
        }
    }
    proof {
        assert(r@ =~= s@);
    }
    r
}

/// Character-by-character equality of two vectors.
pub fn chars_eq(a: &Vec<char>, b: &Vec<char>) -> (r: bool)
    ensures
        r == (a@ === b@),
{
    if a.len() != b.len() {
        proof {
            assert(a@ !== b@);
        }
        return false;
    }
    let n = a.len();
    let mut i: usize = 0;
    while i < n
        invariant
            n == a@.len() && n == b@.len(),
            i <= n,
            forall|k: int| 0 <= k < i ==> a@[k] == b@[k],
        decreases n - i,
    {
        if a[i] != b[i] {
            proof {
                assert(a@[i as int] != b@[i as int]);
            }
            return false;
        }
        i = i + 1;
    }
    proof {
        assert(a@ =~= b@);
    }
    true
}

/// Equality of a character vector against a string.
pub fn chars_eq_str(a: &Vec<char>, s: &str) -> (r: bool)
    ensures
        r == (a@ === s@),
{
    let b = text_chars(s);
    chars_eq(a, &b)
}

/// Whether `p` is a prefix of `a`.
pub open spec fn is_prefix_of(p: Seq<char>, a: Seq<char>) -> bool {
    p.len() <= a.len() && p === a.take(p.len() as int)
}

/// Tests whether `p` is a prefix of `a`.
pub fn chars_prefix(a: &Vec<char>, p: &Vec<char>) -> (r: bool)
    ensures
        r == is_prefix_of(p@, a@),
{
    if p.len() > a.len() {
        return false;
    }
    let n = p.len();
    let mut i: usize = 0;
    while i < n
        invariant
            n == p@.len(),
            n <= a@.len(),
            i <= n,
            forall|k: int| 0 <= k < i ==> a@[k] == p@[k],
        decreases n - i,
    {
        if a[i] != p[i] {
            proof {
                assert(a@.take(n as int)[i as int] == a@[i as int]);
                assert(p@ !== a@.take(n as int));
            }
            return false;
        }
        i = i + 1;
    }
    proof {
        assert(p@ =~= a@.take(n as int));
    }
    true
}

/// Copies the character range `[lo, hi)` out of `a`.
pub fn chars_range(a: &Vec<char>, lo: usize, hi: usize) -> (r: Vec<char>)
    requires
        lo <= hi <= a@.len(),
    ensures
        r@ === a@.subrange(lo as int, hi as int),
{
    let mut r: Vec<char> = Vec::new();
    let mut i: usize = lo;
    while i < hi
        invariant
            lo <= i <= hi <= a@.len(),
            r@ === a@.subrange(lo as int, i as int),
        decreases hi - i,
    {
        r.push(a[i]);
        i = i + 1;
        proof {
            assert(r@ =~= a@.subrange(lo as int, i as int));
        }
    }
    r
}

/// Copies a character vector.
pub fn chars_clone(a: &Vec<char>) -> (r: Vec<char>)
    ensures
        r@ == a@,
{
    let r = chars_range(a, 0, a.len());
    proof {
        assert(a@.subrange(0, a@.len() as int) =~= a@);
    }
    r
}

/// Appends all of `b` onto `a`.
pub fn chars_append(a: &mut Vec<char>, b: &Vec<char>)
    ensures
        final(a)@ === old(a)@ + b@,
{
    let n = b.len();
    let mut i: usize = 0;
    while i < n
        invariant
            n == b@.len(),
            i <= n,
            a@ === old(a)@ + b@.take(i as int),
        decreases n - i,
    {
        a.push(b[i]);
        i = i + 1;
        proof {
            assert(a@ =~= old(a)@ + b@.take(i as int));
        }
    }
    proof {
        assert(a@ =~= old(a)@ + b@);
    }
}

} // verus!

//! Track ids: the file name of a path without its directories and extensions.

use vstd::prelude::*;

verus! {

/// `s[a..b]` is the stem of the path `s`: `a` follows the last `/` (or is 0),
/// and `b` is the first `.` at or after `a` (or the end).
pub open spec fn is_stem(s: Seq<u8>, a: int, b: int) -> bool {
    &&& 0 <= a <= b <= s.len()
    &&& (a == 0 || s[a - 1] == 47u8)
    &&& forall|j: int| a <= j < s.len() ==> #[trigger] s[j] != 47u8
    &&& forall|j: int| a <= j < b ==> #[trigger] s[j] != 46u8
    &&& (b == s.len() || s[b] == 46u8)
}

/// Bounds of the stem of `path`, the part that names a track:
/// `dir/name.ext` gives the bounds of `name`.
pub fn stem_span(path: &[u8]) -> (r: (usize, usize))
    ensures
        is_stem(path@, r.0 as int, r.1 as int),
{
    let n = path.len();
    let mut a: usize = n;
    while a > 0 && path[a - 1] != 47u8
        invariant
            a <= n,
            n == path@.len(),
            forall|j: int| a <= j < n ==> #[trigger] path@[j] != 47u8,
        decreases a,
    {
        a = a - 1;
    }
    let mut b: usize = a;
    while b < n && path[b] != 46u8
        invariant
            a <= b <= n,
            n == path@.len(),
            forall|j: int| a <= j < b ==> #[trigger] path@[j] != 46u8,
        decreases n - b,
    {
        b = b + 1;
    }
    (a, b)
}

} // verus!

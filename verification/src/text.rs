//! Character-level access to string slices.

use vstd::prelude::*;
use vstd::std_specs::iter::IteratorSpec;

verus! {

/// The characters of `s`, in order, for constant-time indexing.
pub fn to_chars(s: &str) -> (v: Vec<char>)
    ensures
        v@ == s@,
{
    broadcast use vstd::string::group_string_axioms;

    let n: usize = s.unicode_len();
    let mut v: Vec<char> = Vec::new();
    let mut it = s.chars();
    let mut i: usize = 0;
    while i < n
        invariant
            n == s@.len(),
            i == v@.len(),
            i <= n,
            it.obeys_prophetic_iter_laws(),
            v@ + it.remaining() == s@,
        decreases n - i,
    {
        // The iterator has `n - i` characters left, so it yields one.
        if let Some(c) = it.next() {
            v.push(c);
        }
        i = i + 1;
    }
    v
}

} // verus!

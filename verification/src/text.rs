//! Small helpers between `String` and character vectors, shared by the
//! scanner and the built-ins.

use vstd::prelude::*;

verus! {

/// The characters of a string slice, in order.
pub fn chars_of(s: &str) -> (r: Vec<char>)
    ensures
        r@ == s@,
{
    let n = s.unicode_len();
    let mut chars: Vec<char> = Vec::new();
    let mut k: usize = 0;
    while k < n
        invariant
            k <= n,
            n == s@.len(),
            chars@ == s@.subrange(0, k as int),
        decreases n - k,
    {
        chars.push(s.get_char(k));
        assert(chars@ =~= s@.subrange(0, (k + 1) as int));
        k = k + 1;
    }
    assert(chars@ =~= s@);
    chars
}

/// Relies on `Iterator::collect` for `String`: the collected string holds
/// exactly the characters of the vector, in order.
#[verifier::external_body]
pub fn string_of(v: &Vec<char>) -> (r: String)
    ensures
        r@ == v@,
{
    v.iter().collect()
}

} // verus!

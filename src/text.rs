//! Conversions between strings and character vectors.
use vstd::prelude::*;

verus! {

pub(crate) fn chars_of(s: &str) -> (r: Vec<char>)
    ensures
        r@ == s@,
{
    let mut r: Vec<char> = Vec::new();
    for c in it: s.chars()
        invariant
            r@ == it.seq().subrange(0, it.index() as int),
    {
        r.push(c);
    }
    r
}

/// Relies on `String`'s `FromIterator<char>`: the string holds the chars in order.
#[verifier::external_body]
pub(crate) fn string_from_chars(v: &Vec<char>) -> (r: String)
    ensures
        r@ == v@,
{
    v.iter().collect()
}


pub(crate) fn push_all(out: &mut Vec<char>, s: &Vec<char>)
    ensures
        final(out)@ == old(out)@ + s@,
{
    let ghost before = out@;
    let mut k: usize = 0;
    while k < s.len()
        invariant
            k <= s.len(),
            out@ == before + s@.subrange(0, k as int),
        decreases s.len() - k,
    {
        out.push(s[k]);
        k = k + 1;
    }
    assert(s@.subrange(0, s.len() as int) =~= s@);
}

} // verus!

use vstd::prelude::*;
use vstd::string::*;

verus! {

/// `String::push` of std: appends one character to the string.
#[verifier::external_body]
pub(crate) fn push_char(s: &mut String, c: char)
    ensures
        final(s)@ == old(s)@.push(c),
{
    s.push(c)
}

/// The characters of a string.
pub(crate) fn string_chars(s: &String) -> (res: Vec<char>)
    ensures
        res@ == s@,
{
    let st = s.as_str();
    let n = st.unicode_len();
    let mut res: Vec<char> = Vec::new();
    let mut i: usize = 0;
    while i < n
        invariant
            st@ == s@,
            n == s@.len(),
            i <= n,
            res@ == s@.take(i as int),
        decreases n - i,
    {
        let c = st.get_char(i);
        res.push(c);
        i = i + 1;
        assert(res@ =~= s@.take(i as int));
    }
    assert(res@ =~= s@);
    res
}

/// A string of the characters of `v` from `start` to `end`.
pub(crate) fn string_from_chars(v: &Vec<char>, start: usize, end: usize) -> (res: String)
    requires
        start <= end <= v.len(),
    ensures
        res@ == v@.subrange(start as int, end as int),
{
    let mut res = String::new();
    let mut i = start;
    while i < end
        invariant
            start <= i <= end <= v.len(),
            res@ == v@.subrange(start as int, i as int),
        decreases end - i,
    {
        push_char(&mut res, v[i]);
        i = i + 1;
        assert(res@ =~= v@.subrange(start as int, i as int));
    }
    res
}

} // verus!

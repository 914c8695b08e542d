//! Left-padding of strings, used for zero-padded decimal length prefixes.

use vstd::prelude::*;

verus! {

/// `p` repeated `n` times.
pub open spec fn seq_repeat(p: Seq<char>, n: nat) -> Seq<char>
    decreases n,
{
    if n == 0 {
        Seq::empty()
    } else {
        seq_repeat(p, (n - 1) as nat) + p
    }
}

/// `s` preceded by as many copies of `pad` as bring it to `length`
/// characters; `s` unchanged when already long enough.
pub open spec fn spec_left_pad(s: Seq<char>, length: nat, pad: Seq<char>) -> Seq<char> {
    if s.len() >= length {
        s
    } else {
        seq_repeat(pad, (length - s.len()) as nat) + s
    }
}

pub fn left_pad(s: &str, length: usize, pad: &str) -> (r: String)
    ensures
        r@ == spec_left_pad(s@, length as nat, pad@),
{
    let slen = s.unicode_len();
    if slen >= length {
        return s.to_owned();
    }
    let count = length - slen;
    let mut acc = String::new();
    let mut i: usize = 0;
    while i < count
        invariant
            i <= count,
            acc@ == seq_repeat(pad@, i as nat),
        decreases count - i,
    {
        acc.append(pad);
        i = i + 1;
    }
    acc.append(s);
    acc
}

} // verus!

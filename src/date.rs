//! Scanning helpers for date and time text.
use vstd::prelude::*;
use vstd::slice::slice_subrange;

use crate::global::{is_space, spec_is_space};

verus! {

/// Number of white-space bytes at the start of `s`.
pub open spec fn leading_spaces(s: Seq<u8>) -> nat
    decreases s.len(),
{
    if s.len() > 0 && spec_is_space(s[0]) {
        1 + leading_spaces(s.drop_first())
    } else {
        0
    }
}

/// Returns `input` without its leading white space.
pub fn skip_spaces(input: &[u8]) -> (r: &[u8])
    ensures
        r@ == input@.skip(leading_spaces(input@) as int),
{
    let mut k: usize = 0;
    assert(input@.skip(0) =~= input@);
    while k < input.len() && is_space(input[k])
        invariant
            k <= input@.len(),
            leading_spaces(input@) == k + leading_spaces(input@.skip(k as int)),
        decreases input@.len() - k,
    {
        proof {
            assert(input@.skip(k as int).drop_first() =~= input@.skip(k as int + 1));
        }
        k = k + 1;
    }
    let r = slice_subrange(input, k, input.len());
    proof {
        assert(input@.skip(k as int) =~= input@.subrange(k as int, input@.len() as int));
    }
    r
}

} // verus!

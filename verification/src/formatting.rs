//! Textual rendering of bit vectors for the front end.

use vstd::prelude::*;
use vstd::string::StringExecFns;

verus! {

/// The character a bit is rendered as: `'1'` or `'0'`.
pub open spec fn bit_char(b: bool) -> char {
    if b {
        '1'
    } else {
        '0'
    }
}

/// Formats a bit vector as a string of `'1'` and `'0'` characters, one
/// per bit, in order.
pub fn format_bits(bits: &[bool]) -> (r: String)
    ensures
        r@.len() == bits@.len(),
        forall|i: int| 0 <= i < bits@.len() ==> r@[i] == bit_char(bits@[i]),
{
    let mut r = String::new();
    proof {
        reveal_strlit("1");
        reveal_strlit("0");
    }
    let mut i: usize = 0;
    while i < bits.len()
        invariant
            0 <= i <= bits@.len(),
            r@.len() == i,
            forall|l: int| 0 <= l < i ==> r@[l] == bit_char(bits@[l]),
        decreases bits@.len() - i,
    {
        proof {
            reveal_strlit("1");
            reveal_strlit("0");
        }
        if bits[i] {
            r.append("1");
        } else {
            r.append("0");
        }
        i = i + 1;
    }
    r
}

} // verus!

//! Validation of caller-supplied metadata at the transport boundary.
//!
//! A file extension may only contain ASCII alphanumeric characters; the
//! empty extension is allowed. The transport layer must apply this check
//! before it hands an upload to the cache.

use vstd::prelude::*;

verus! {

/// One character of a file extension: an ASCII letter or digit.
pub open spec fn alphanumeric_char(c: char) -> bool {
    ('a' <= c && c <= 'z') || ('A' <= c && c <= 'Z') || ('0' <= c && c <= '9')
}

/// A valid extension consists of alphanumeric characters only (it may be empty).
pub open spec fn valid_extension(s: Seq<char>) -> bool {
    forall|i: int| 0 <= i < s.len() ==> alphanumeric_char(#[trigger] s[i])
}

/// Decides whether `ext` may be used as the file extension of an upload.
pub fn is_valid_extension(ext: &str) -> (r: bool)
    ensures
        r == valid_extension(ext@),
{
    let len = ext.unicode_len();
    let mut i: usize = 0;
    while i < len
        invariant
            i <= len,
            len == ext@.len(),
            forall|j: int| 0 <= j < i ==> alphanumeric_char(#[trigger] ext@[j]),
        decreases len - i,
    {
        let c = ext.get_char(i);
        let ok = ('a' <= c && c <= 'z') || ('A' <= c && c <= 'Z') || ('0' <= c && c <= '9');
        if !ok {
            return false;
        }
        i += 1;
    }
    true
}

} // verus!


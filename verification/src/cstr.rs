//! Checking the contents of C strings.

use vstd::prelude::*;

verus! {

/// Whether `bytes` can be the contents of a C string: no byte is NUL.
pub open spec fn no_nul(bytes: Seq<u8>) -> bool {
    forall|i: int| 0 <= i < bytes.len() ==> bytes[i] != 0u8
}

/// Checks that `bytes` holds no NUL byte, the condition for them to be the
/// contents of a C string; the caller owes that condition.
pub fn validate_cstr_contents(bytes: &[u8])
    requires
        no_nul(bytes@),
{
    let mut i: usize = 0;
    while i < bytes.len()
        invariant
            0 <= i <= bytes@.len(),
            no_nul(bytes@),
        decreases bytes@.len() - i,
    {
        assert(bytes[i as int] != 0u8);
        i = i + 1;
    }
}

/// Whether `bytes` holds no NUL byte.
pub fn is_valid_cstr_contents(bytes: &[u8]) -> (r: bool)
    ensures
        r == no_nul(bytes@),
{
    let mut i: usize = 0;
    while i < bytes.len()
        invariant
            0 <= i <= bytes@.len(),
            forall|j: int| 0 <= j < i ==> bytes@[j] != 0u8,
        decreases bytes@.len() - i,
    {
        if bytes[i] == 0 {
            return false;
        }
        i = i + 1;
    }
    true
}

} // verus!

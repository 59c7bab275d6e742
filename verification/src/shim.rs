//! Byte search for the C library shim.
use vstd::prelude::*;

verus! {

/// The index of the first byte of `bytes` equal to the low byte of `c`, as C's `memchr`
/// finds it, or `None` when there is none.
pub fn memchr_index(bytes: &[u8], c: i32) -> (r: Option<usize>)
    ensures
        r matches Some(i) ==> i < bytes@.len() && bytes@[i as int] == (c as u8) && forall|j: int|
            0 <= j < i ==> bytes@[j] != (c as u8),
        r is None ==> forall|j: int| 0 <= j < bytes@.len() ==> bytes@[j] != (c as u8),
{
    let target = #[verifier::truncate] (c as u8);
    let mut i: usize = 0;
    while i < bytes.len()
        invariant
            i <= bytes@.len(),
            target == (c as u8),
            forall|j: int| 0 <= j < i ==> bytes@[j] != target,
        decreases bytes.len() - i,
    {
        if bytes[i] == target {
            return Some(i);
        }
        i = i + 1;
    }
    None
}

} // verus!

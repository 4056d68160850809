//! Little-endian integers in byte sequences.

use vstd::prelude::*;

use crate::text::{has_infix, occurs_at};

verus! {

/// The little-endian 32-bit value of the four bytes of `b` from position `k`.
pub open spec fn le_u32(b: Seq<u8>, k: int) -> int {
    b[k] + b[k + 1] * 256 + b[k + 2] * 65536 + b[k + 3] * 16777216
}

/// The little-endian value of the four bytes of `b` from position `k`, as
/// `u32::from_le_bytes` (and `byteorder`'s `LittleEndian::read_u32`) read it.
pub fn read_le_u32(b: &[u8], k: usize) -> (r: u32)
    requires
        k + 4 <= b@.len(),
    ensures
        r == le_u32(b@, k as int),
{
    let b0 = b[k] as u32;
    let b1 = b[k + 1] as u32;
    let b2 = b[k + 2] as u32;
    let b3 = b[k + 3] as u32;
    b0 + b1 * 256 + b2 * 65536 + b3 * 16777216
}


/// Whether `p` occurs in `s` at position `k`.
pub fn bytes_match_at(s: &[u8], p: &[u8], k: usize) -> (r: bool)
    ensures
        r == occurs_at(s@, p@, k as int),
{
    if k > s.len() || p.len() > s.len() - k {
        return false;
    }
    let mut j: usize = 0;
    while j < p.len()
        invariant
            s@.len() == s.len(),
            p@.len() == p.len(),
            k + p@.len() <= s@.len(),
            j <= p@.len(),
            forall|i: int| 0 <= i < j ==> s@[k + i] == p@[i],
        decreases p@.len() - j,
    {
        if s[k + j] != p[j] {
            assert(s@.subrange(k as int, k + p@.len())[j as int] != p@[j as int]);
            return false;
        }
        j += 1;
    }
    assert(s@.subrange(k as int, k + p@.len()) =~= p@);
    true
}

/// Whether `p` occurs somewhere in `s`: `s.windows(p.len()).any(|w| w == p)`.
pub fn contains_bytes(s: &[u8], p: &[u8]) -> (r: bool)
    ensures
        r == has_infix(s@, p@),
{
    if p.len() > s.len() {
        assert forall|k: int| !occurs_at(s@, p@, k) by {}
        return false;
    }
    let last = s.len() - p.len();
    let mut k: usize = 0;
    loop
        invariant
            last + p@.len() == s@.len(),
            k <= last,
            forall|i: int| 0 <= i < k ==> !occurs_at(s@, p@, i),
        ensures
            forall|i: int| 0 <= i <= last ==> !occurs_at(s@, p@, i),
        decreases last - k,
    {
        if bytes_match_at(s, p, k) {
            return true;
        }
        if k == last {
            break;
        }
        k += 1;
    }
    assert forall|i: int| !occurs_at(s@, p@, i) by {
        if 0 <= i <= last {
        }
    }
    false
}

} // verus!

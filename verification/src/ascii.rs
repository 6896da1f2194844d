//! ASCII case-insensitive comparison of byte strings.

use vstd::prelude::*;

verus! {

/// The ASCII lower-case form of one byte: `A`..`Z` become `a`..`z`,
/// every other byte stays as it is.
pub open spec fn lower_byte(b: u8) -> u8 {
    if 65 <= b <= 90 {
        (b + 32) as u8
    } else {
        b
    }
}

/// The ASCII lower-case form of a byte string.
pub open spec fn lower_bytes(s: Seq<u8>) -> Seq<u8> {
    s.map_values(|b: u8| lower_byte(b))
}

/// Whether the ASCII lower-case form of `s` is exactly `lit`.
pub open spec fn lower_is(s: Seq<u8>, lit: Seq<u8>) -> bool {
    lower_bytes(s) == lit
}

/// Lower-cases one byte.
pub fn ascii_lower_byte(b: u8) -> (r: u8)
    ensures
        r == lower_byte(b),
{
    if 65 <= b && b <= 90 {
        b + 32
    } else {
        b
    }
}

/// Tells whether the ASCII lower-case form of `s` equals `lit`.
pub fn lower_eq(s: &[u8], lit: &[u8]) -> (r: bool)
    ensures
        r == lower_is(s@, lit@),
{
    if s.len() != lit.len() {
        proof {
            assert(lower_bytes(s@).len() == s@.len());
        }
        return false;
    }
    let n = s.len();
    let mut i: usize = 0;
    while i < n
        invariant
            n == s@.len(),
            n == lit@.len(),
            i <= n,
            forall|j: int| 0 <= j < i ==> lower_byte(s@[j]) == lit@[j],
        decreases n - i,
    {
        if ascii_lower_byte(s[i]) != lit[i] {
            proof {
                assert(lower_bytes(s@)[i as int] != lit@[i as int]);
            }
            return false;
        }
        i = i + 1;
    }
    proof {
        assert(lower_bytes(s@) =~= lit@);
    }
    true
}

} // verus!

//! Attribute names and identities compare case-insensitively: ASCII letters
//! are folded to upper case before any comparison or lookup, and every other
//! byte of the UTF-8 encoding compares exactly.

use vstd::prelude::*;
use vstd::utf8::encode_utf8;

verus! {

/// The UTF-8 encoding of a string, the level at which names are compared.
pub open spec fn sbytes(s: Seq<char>) -> Seq<u8> {
    encode_utf8(s)
}

/// Folds an ASCII lower-case letter to upper case; leaves every other byte
/// unchanged. Bytes of multi-byte UTF-8 sequences are at least 0x80, so this
/// never touches them.
pub open spec fn norm_byte(b: u8) -> u8 {
    if 97 <= b && b <= 122 {
        (b - 32) as u8
    } else {
        b
    }
}

/// A byte string folded to its case-normalized form.
pub open spec fn norm_bytes(s: Seq<u8>) -> Seq<u8> {
    s.map_values(|b: u8| norm_byte(b))
}

/// Two names are the same attribute when their case-normalized forms agree.
pub open spec fn name_eq(a: Seq<u8>, b: Seq<u8>) -> bool {
    norm_bytes(a) == norm_bytes(b)
}

/// Case folding twice is the same as folding once, so normalized names are
/// themselves in normal form.
pub proof fn lemma_norm_idempotent(s: Seq<u8>)
    ensures
        norm_bytes(norm_bytes(s)) == norm_bytes(s),
{
    assert(norm_bytes(norm_bytes(s)) =~= norm_bytes(s));
}

fn norm_byte_x(b: u8) -> (r: u8)
    ensures
        r == norm_byte(b),
{
    if 97 <= b && b <= 122 {
        b - 32
    } else {
        b
    }
}

/// Decides whether two byte strings are the same case-normalized name.
pub fn bytes_name_eq(a: &[u8], b: &[u8]) -> (r: bool)
    ensures
        r == name_eq(a@, b@),
{
    if a.len() != b.len() {
        assert(norm_bytes(a@).len() != norm_bytes(b@).len());
        return false;
    }
    let n = a.len();
    let mut i: usize = 0;
    while i < n
        invariant
            n == a@.len() == b@.len(),
            0 <= i <= n,
            forall|k: int| 0 <= k < i ==> norm_byte(a@[k]) == norm_byte(b@[k]),
        decreases n - i,
    {
        if norm_byte_x(a[i]) != norm_byte_x(b[i]) {
            assert(norm_bytes(a@)[i as int] != norm_bytes(b@)[i as int]);
            return false;
        }
        i = i + 1;
    }
    proof {
        assert(norm_bytes(a@) =~= norm_bytes(b@));
    }
    true
}

/// Decides whether two strings are the same case-normalized name.
pub fn str_name_eq(a: &str, b: &str) -> (r: bool)
    ensures
        r == name_eq(sbytes(a@), sbytes(b@)),
{
    bytes_name_eq(a.as_bytes(), b.as_bytes())
}

/// The normalized spelling of a name, as stored at insertion. Relies on
/// `str::to_ascii_uppercase`: ASCII letters are mapped to upper case and
/// every other character is unchanged, so the result's encoding is the
/// case-normalized form of the input's.
#[verifier::external_body]
pub(crate) fn normalize(s: &str) -> (r: String)
    ensures
        sbytes(r@) == norm_bytes(sbytes(s@)),
{
    s.to_ascii_uppercase()
}

} // verus!

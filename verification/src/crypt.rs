//! The hybrid symmetric cipher collaborator: the bulk payload is sealed under
//! a key derived from a target-group element, with authenticated encryption,
//! so that any tampering with the sealed bytes is detected on opening.

use vstd::prelude::*;

use aes_gcm::Aes256Gcm;
use aes_gcm::aead::{Aead, KeyInit};
use rand::Rng;
use sha2::{Digest, Sha256};

verus! {

/// Relies on `Sha256` to derive a symmetric key from the session element's
/// bytes and on `Aes256Gcm::encrypt` under a fresh random nonce; the nonce is
/// carried in front of the sealed bytes. The cipher accepts any payload up
/// to its length bound of `2^36 - 32` bytes and appends a 16-byte tag, so
/// the result is the payload's length plus the nonce and the tag.
#[verifier::external_body]
pub(crate) fn seal(key: &rabe_bn::Gt, data: &[u8]) -> (r: Vec<u8>)
    requires
        data@.len() <= 0xF_FFFF_FFE0,
    ensures
        r@.len() == data@.len() + 28,
{
    let kb = Sha256::digest(&key.into_bytes());
    let cipher = Aes256Gcm::new_from_slice(kb.as_slice()).unwrap();
    let mut nb = [0u8; 12];
    rand::thread_rng().fill(&mut nb);
    let nonce = aes_gcm::Nonce::from(nb);
    let sealed = cipher.encrypt(&nonce, data).unwrap();
    let mut out = nb.to_vec();
    out.extend_from_slice(&sealed);
    out
}

/// Relies on `Sha256` and `Aes256Gcm::decrypt`: returns the sealed payload
/// only when the key matches and the bytes authenticate, `None` otherwise.
#[verifier::external_body]
pub(crate) fn open_sealed(key: &rabe_bn::Gt, data: &[u8]) -> Option<Vec<u8>> {
    if data.len() < 12 {
        return None;
    }
    let kb = Sha256::digest(&key.into_bytes());
    let cipher = Aes256Gcm::new_from_slice(kb.as_slice()).ok()?;
    let (nb, sealed) = data.split_at(12);
    let nonce = aes_gcm::Nonce::try_from(nb).ok()?;
    cipher.decrypt(&nonce, sealed).ok()
}

} // verus!

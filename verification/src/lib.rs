//! Decentralized multi-authority ciphertext-policy attribute-based
//! encryption over asymmetric bilinear pairing groups, after Lewko and
//! Waters. Independent, mutually untrusting authorities each issue key
//! material for their own attribute namespace; a sender encrypts under a
//! boolean policy over attributes drawn from any mix of authorities; a key
//! bound to one identity decrypts exactly when its attribute set satisfies
//! the ciphertext's policy.
//!
//! The policy engine - compilation of a policy expression, linear secret
//! sharing over its tree, satisfaction and pruning, and reconstruction - is
//! specified and verified here; the bilinear-group arithmetic, the
//! hash-to-group primitive and the authenticated symmetric cipher are
//! outside collaborators, called through a small trusted boundary.

pub mod crypt;
pub mod groups;
pub mod names;
pub mod parse;
pub mod policy;
pub mod scheme;
pub mod sharing;

pub use scheme::{
    Aw11Ciphertext, Aw11Context, Aw11GlobalContext, Aw11GlobalKey, Aw11MasterKey, Aw11PublicKey,
    Aw11SecretKey, add_attribute, authgen, decrypt, encrypt, find_pk_attr, keygen, setup,
};

use vstd::prelude::*;

verus! {

/// The error kinds that any operation of this scheme can report.
#[derive(Debug, Clone, Copy, PartialEq, Eq, Structural)]
pub enum AbeError {
    /// An attribute list or an identity was empty where one is required.
    EmptyInput,
    /// An attribute referenced by key issuance or encryption is not governed
    /// by any of the supplied authorities.
    AttributeNotFound,
    /// The policy expression is malformed.
    PolicyParseError,
    /// The key's attribute set does not satisfy the ciphertext's policy.
    PolicyUnsatisfied,
    /// The sealed payload failed to authenticate: tampered bytes or a wrong
    /// session key.
    SymmetricDecryptFailure,
    /// The coefficient solver could not reconstruct from a row set that the
    /// evaluator claims is satisfying.
    InternalInconsistency,
}

} // verus!

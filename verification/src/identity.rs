//! Identities: the opaque tokens that name signers and callers.
//!
//! An identity is a blob of at most 29 bytes. Two identities are the same
//! exactly when their bytes are. The textual form, used inside command
//! payloads, is the principal text format.

use crate::store::Key;
use vstd::prelude::*;

verus! {

/// The longest byte string that is an identity.
pub const MAX_IDENTITY_BYTES: usize = 29;

/// A signer or caller.
#[derive(Debug, PartialEq, Eq)]
pub struct Identity {
    bytes: Vec<u8>,
}

impl View for Identity {
    type V = Seq<u8>;

    closed spec fn view(&self) -> Seq<u8> {
        self.bytes@
    }
}

impl DeepView for Identity {
    type V = Seq<u8>;

    open spec fn deep_view(&self) -> Seq<u8> {
        self@
    }
}

/// The identity whose textual form is `text`, if `text` is the textual form of one.
pub uninterp spec fn principal_from_text(text: Seq<char>) -> Option<Seq<u8>>;

/// The textual form of the identity with the given bytes.
pub uninterp spec fn principal_text(bytes: Seq<u8>) -> Seq<char>;

/// `candid::types::principal::PrincipalError`: why `Principal::from_text`
/// refused a text. Nothing is read from it.
#[verifier::external_type_specification]
#[verifier::external_body]
pub struct ExPrincipalError(candid::types::principal::PrincipalError);

/// `candid::Principal::from_text`: parses the textual form of a principal. What
/// it accepts depends on the text alone; a principal never has more than 29 bytes.
#[verifier::external_body]
fn principal_parse(text: &str) -> (r: Result<Vec<u8>, candid::types::principal::PrincipalError>)
    ensures
        match r {
            Ok(bytes) => principal_from_text(text@) == Some(bytes@) && bytes@.len()
                <= MAX_IDENTITY_BYTES,
            Err(_) => principal_from_text(text@) is None,
        },
{
    match candid::Principal::from_text(text) {
        Ok(principal) => Ok(principal.as_slice().to_vec()),
        Err(e) => Err(e),
    }
}

/// `candid::Principal::to_text`: the textual form of the principal made of `bytes`.
#[verifier::external_body]
fn principal_print(bytes: &[u8]) -> (text: String)
    requires
        bytes@.len() <= MAX_IDENTITY_BYTES,
    ensures
        text@ == principal_text(bytes@),
{
    candid::Principal::from_slice(bytes).to_text()
}

impl Identity {
    #[verifier::type_invariant]
    spec fn bounded(self) -> bool {
        self.bytes@.len() <= MAX_IDENTITY_BYTES
    }

    /// The identity made of `bytes`, unless there are more than 29 of them.
    pub fn from_bytes(bytes: Vec<u8>) -> (r: Option<Identity>)
        ensures
            match r {
                Some(id) => id@ == bytes@ && bytes@.len() <= MAX_IDENTITY_BYTES,
                None => bytes@.len() > MAX_IDENTITY_BYTES,
            },
    {
        if bytes.len() <= MAX_IDENTITY_BYTES {
            Some(Identity { bytes })
        } else {
            None
        }
    }

    /// The bytes of the identity.
    pub fn as_bytes(&self) -> (r: &[u8])
        ensures
            r@ == self@,
            r@.len() <= MAX_IDENTITY_BYTES,
    {
        proof {
            use_type_invariant(self);
        }
        self.bytes.as_slice()
    }

    /// The identity written as `text`, if `text` is the textual form of one.
    pub fn from_text(text: &str) -> (r: Option<Identity>)
        ensures
            match r {
                Some(id) => principal_from_text(text@) == Some(id@),
                None => principal_from_text(text@) is None,
            },
    {
        match principal_parse(text) {
            Ok(bytes) => Some(Identity { bytes }),
            Err(_) => None,
        }
    }

    /// The textual form of the identity.
    pub fn to_text(&self) -> (text: String)
        ensures
            text@ == principal_text(self@),
    {
        proof {
            use_type_invariant(self);
        }
        principal_print(self.bytes.as_slice())
    }

    /// Whether `self` and `other` are the same identity.
    pub fn same(&self, other: &Identity) -> (r: bool)
        ensures
            r == (self@ == other@),
    {
        self.bytes.same_key(&other.bytes)
    }
}

impl Key for Identity {
    fn same_key(&self, other: &Self) -> (r: bool) {
        self.same(other)
    }
}

impl Clone for Identity {
    fn clone(&self) -> (r: Identity)
        ensures
            r@ == self@,
    {
        proof {
            use_type_invariant(self);
        }
        Identity { bytes: self.bytes.clone() }
    }
}

} // verus!

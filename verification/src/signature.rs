//! Signatures over domain-separated messages.
use vstd::prelude::*;

verus! {

/// A public key.
#[derive(Clone, Copy, Debug, PartialEq, Eq)]
pub struct PublicKey {
    pub bytes: [u8; 32],
}

/// A signature. The all-zero signature stands for "not signed".
#[derive(Clone, Copy, Debug, PartialEq, Eq)]
pub struct Signature {
    pub bytes: [u8; 64],
}

impl View for Signature {
    type V = Seq<u8>;

    open spec fn view(&self) -> Seq<u8> {
        self.bytes@
    }
}

impl Signature {
    /// The signature of a result that was not signed: 64 zero bytes.
    pub open spec fn unsigned() -> Seq<u8> {
        Seq::new(64, |i: int| 0u8)
    }
}

impl Default for Signature {
    fn default() -> (s: Signature)
        ensures
            s@ == Signature::unsigned(),
    {
        let s = Signature { bytes: [0u8; 64] };
        assert(s@ =~= Signature::unsigned());
        s
    }
}

/// Why a signer did not sign.
#[derive(Clone, Copy, Debug, PartialEq, Eq, Structural)]
pub enum SignError {
    /// The signer holds no key.
    NoKey,
    /// The signer failed.
    Failed,
}

/// The capability to sign with a key that is bound to this node.
///
/// Nothing is assumed about an implementation.
pub trait Signer {
    /// The public key of the signing key, if a key is configured.
    fn public_key(&self) -> Option<PublicKey>;

    /// Signs `message` under the domain-separation tag `context`.
    fn sign(&self, context: &[u8], message: &[u8]) -> Result<Signature, SignError>;
}

} // verus!

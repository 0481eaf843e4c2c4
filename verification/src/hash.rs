//! Content hashes.
//!
//! All hashes in this crate are SHA-512/256 digests. The digest itself is
//! computed by the `sha2` crate; to the verifier it is an uninterpreted
//! function of the input bytes.
use sha2::Digest;
use vstd::prelude::*;

verus! {

/// Number of bytes in a hash.
pub const HASH_SIZE: usize = 32;

/// The SHA-512/256 digest of `data`, as computed by `sha2::Sha512_256`.
pub uninterp spec fn sha512_256(data: Seq<u8>) -> Seq<u8>;

/// The content hash of `data`: its SHA-512/256 digest.
///
/// The definition is total and always 32 bytes long, so that statements about
/// encodings that embed hashes do not need a side condition on lengths. For
/// every input the digest has been computed for, this is the digest.
pub open spec fn digest(data: Seq<u8>) -> Seq<u8> {
    let d = sha512_256(data);
    if d.len() == 32 {
        d
    } else {
        Seq::new(32, |i: int| 0u8)
    }
}

/// `a` and `b` collide: they are two different byte strings with the same
/// content hash.
///
/// Nothing in this crate can rule this out of given strings. A statement
/// that rests on the hash being binding names the two strings of which it
/// supposes that they do not collide.
pub open spec fn collide(a: Seq<u8>, b: Seq<u8>) -> bool {
    a != b && digest(a) == digest(b)
}

/// A 32-byte content hash.
#[derive(Clone, Copy, Debug, PartialEq, Eq, Hash)]
pub struct Hash {
    pub bytes: [u8; 32],
}

impl View for Hash {
    type V = Seq<u8>;

    open spec fn view(&self) -> Seq<u8> {
        self.bytes@
    }
}

/// Calls `sha2::Sha512_256::digest` on `data` and copies the 32 output bytes
/// into an array. The contract names the result; it claims nothing else.
#[verifier::external_body]
fn sha512_256_bytes(data: &[u8]) -> (out: [u8; 32])
    ensures
        out@ == sha512_256(data@),
{
    sha2::Sha512_256::digest(data).into()
}

impl Hash {
    /// The hash of `data`.
    pub fn digest_bytes(data: &[u8]) -> (h: Hash)
        ensures
            h@ == digest(data@),
    {
        Hash { bytes: sha512_256_bytes(data) }
    }

    /// The hash of the empty byte string, which stands for an empty tree.
    pub fn empty_hash() -> (h: Hash)
        ensures
            h@ == empty_digest(),
    {
        let nothing: Vec<u8> = Vec::new();
        let h = Hash::digest_bytes(nothing.as_slice());
        assert(nothing@ =~= Seq::<u8>::empty());
        h
    }

    /// The all-zero hash, used where no hash has been set.
    pub fn zero() -> (h: Hash)
        ensures
            h@ == Seq::new(32, |i: int| 0u8),
    {
        let h = Hash { bytes: [0u8; 32] };
        assert(h@ =~= Seq::new(32, |i: int| 0u8));
        h
    }

    /// Whether two hashes hold the same bytes.
    pub fn same(&self, other: &Hash) -> (b: bool)
        ensures
            b == (self@ == other@),
            b == (*self == *other),
    {
        let mut i: usize = 0;
        while i < 32
            invariant
                0 <= i <= 32,
                forall|j: int| 0 <= j < i ==> self.bytes@[j] == other.bytes@[j],
            decreases 32 - i,
        {
            if self.bytes[i] != other.bytes[i] {
                return false;
            }
            i += 1;
        }
        assert(self.bytes@ =~= other.bytes@);
        assert(self.bytes == other.bytes);
        true
    }

    /// The bytes of the hash.
    pub fn to_vec(&self) -> (v: Vec<u8>)
        ensures
            v@ == self@,
    {
        let mut v: Vec<u8> = Vec::new();
        let mut i: usize = 0;
        while i < 32
            invariant
                0 <= i <= 32,
                v@ == self.bytes@.subrange(0, i as int),
            decreases 32 - i,
        {
            v.push(self.bytes[i]);
            assert(v@ =~= self.bytes@.subrange(0, i + 1));
            i += 1;
        }
        assert(v@ =~= self@);
        v
    }
}

/// The hash of the empty byte string.
pub open spec fn empty_digest() -> Seq<u8> {
    digest(Seq::<u8>::empty())
}

/// Every content hash is 32 bytes long.
pub proof fn lemma_digest_len(data: Seq<u8>)
    ensures
        digest(data).len() == 32,
{
}

} // verus!

//! Identity of a versioned tree snapshot.
use crate::hash;
use vstd::prelude::*;

verus! {

/// What a tree holds: execution state, or the inputs and outputs of a round.
#[derive(Clone, Copy, Debug, PartialEq, Eq, Structural)]
pub enum RootType {
    /// Execution state.
    State,
    /// Transaction inputs and outputs of one round.
    IO,
}

/// A 32-byte runtime namespace identifier.
#[derive(Clone, Copy, Debug, PartialEq, Eq)]
pub struct Namespace {
    pub bytes: [u8; 32],
}

impl View for Namespace {
    type V = Seq<u8>;

    open spec fn view(&self) -> Seq<u8> {
        self.bytes@
    }
}

impl Namespace {
    /// The all-zero namespace.
    pub fn zero() -> (ns: Namespace)
        ensures
            ns@ == Seq::new(32, |i: int| 0u8),
    {
        let ns = Namespace { bytes: [0u8; 32] };
        assert(ns@ =~= Seq::new(32, |i: int| 0u8));
        ns
    }

    /// Whether two namespaces hold the same bytes.
    pub fn same(&self, other: &Namespace) -> (b: bool)
        ensures
            b == (*self == *other),
            b == (self@ == other@),
    {
        let mut i: usize = 0;
        while i < 32
            invariant
                0 <= i <= 32,
                forall|j: int| 0 <= j < i ==> self.bytes@[j] == other.bytes@[j],
            decreases 32 - i,
        {
            if self.bytes[i] != other.bytes[i] {
                return false;
            }
            i += 1;
        }
        assert(self.bytes@ =~= other.bytes@);
        assert(self.bytes == other.bytes);
        true
    }
}

/// The identity of one snapshot of a tree. Two roots are the same snapshot
/// only if all four fields agree.
#[derive(Clone, Copy, Debug, PartialEq, Eq)]
pub struct Root {
    /// Namespace of the runtime the snapshot belongs to.
    pub namespace: Namespace,
    /// Round in which the snapshot was produced.
    pub version: u64,
    /// What the tree holds.
    pub root_type: RootType,
    /// Root hash of the tree.
    pub hash: hash::Hash,
}

impl Root {
    /// Whether two roots name the same snapshot.
    pub fn same(&self, other: &Root) -> (b: bool)
        ensures
            b == (*self == *other),
            b == (self.namespace == other.namespace && self.version == other.version
                && self.root_type == other.root_type && self.hash == other.hash),
    {
        self.namespace.same(&other.namespace) && self.version == other.version && self.root_type
            == other.root_type && self.hash.same(&other.hash)
    }

    /// The root a state cache is bound to before it has seen any block: the
    /// zero namespace, round zero, state type, and the all-zero hash.
    pub fn unset() -> (r: Root)
        ensures
            r.version == 0,
            r.root_type == RootType::State,
            r.namespace@ == Seq::new(32, |i: int| 0u8),
            r.hash@ == Seq::new(32, |i: int| 0u8),
    {
        Root { namespace: Namespace::zero(), version: 0, root_type: RootType::State, hash: hash::Hash::zero() }
    }
}

} // verus!

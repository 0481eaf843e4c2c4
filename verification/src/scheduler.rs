//! Committees: which nodes serve a contract in an epoch.
use crate::signature::PublicKey;
use std::sync::Arc;
use vstd::prelude::*;

verus! {

/// The role a node plays in a committee.
#[derive(Clone, Copy, Debug, PartialEq, Eq, Structural)]
pub enum Role {
    /// Worker node.
    Worker,
    /// Group leader.
    Leader,
}

/// A node participating in a committee.
#[derive(Clone, Copy, Debug, PartialEq, Eq)]
pub struct CommitteeNode {
    /// Node role.
    pub role: Role,
    /// Node public key.
    pub public_key: PublicKey,
}

/// The role of a node as it travels between nodes.
#[derive(Clone, Copy, Debug, PartialEq, Eq, Structural)]
pub enum WireRole {
    Worker,
    Leader,
}

/// A committee node as it travels between nodes: the role and the 32
/// bytes of the public key.
#[derive(Clone, Copy, Debug, PartialEq, Eq)]
pub struct WireCommitteeNode {
    pub role: WireRole,
    pub public_key: [u8; 32],
}

/// Why a committee node that came in is not one. No committee node gives
/// rise to it: every role and every key makes a node.
#[derive(Clone, Debug, PartialEq, Eq)]
pub struct ConversionError {
    pub message: String,
}

/// The role that a role on the wire stands for.
pub open spec fn role_of(wire: WireRole) -> Role {
    match wire {
        WireRole::Worker => Role::Worker,
        WireRole::Leader => Role::Leader,
    }
}

/// The role on the wire that stands for a role.
pub open spec fn wire_role_of(role: Role) -> WireRole {
    match role {
        Role::Worker => WireRole::Worker,
        Role::Leader => WireRole::Leader,
    }
}

impl CommitteeNode {
    /// Takes in a committee node from the wire: the role it stands for,
    /// and the key as it comes. This never fails.
    pub fn try_from(a: WireCommitteeNode) -> (r: Result<CommitteeNode, ConversionError>)
        ensures
            r matches Ok(node) && node.role == role_of(a.role) && node.public_key.bytes == a.public_key,
    {
        let role = match a.role {
            WireRole::Worker => Role::Worker,
            WireRole::Leader => Role::Leader,
        };
        Ok(CommitteeNode { role, public_key: PublicKey { bytes: a.public_key } })
    }

    /// Puts the committee node on the wire. What comes out is taken in
    /// again as the same node.
    pub fn into(self) -> (c: WireCommitteeNode)
        ensures
            c.role == wire_role_of(self.role),
            c.public_key == self.public_key.bytes,
            role_of(c.role) == self.role,
    {
        let role = match self.role {
            Role::Worker => WireRole::Worker,
            Role::Leader => WireRole::Leader,
        };
        WireCommitteeNode { role, public_key: self.public_key.bytes }
    }
}

/// The functionality a committee exists to provide.
#[derive(Clone, Copy, Debug, PartialEq, Eq, Structural)]
pub enum CommitteeType {
    Compute,
    Storage,
}

/// A contract that committees are formed for.
#[derive(Clone, Copy, Debug, PartialEq, Eq)]
pub struct Contract {
    /// The identifier of the contract.
    pub id: [u8; 32],
}

/// The committee of one contract for one epoch.
#[derive(Clone, Debug, PartialEq, Eq)]
pub struct Committee {
    pub kind: CommitteeType,
    pub members: Vec<CommitteeNode>,
    pub contract: Arc<Contract>,
    /// The epoch the committee is valid for.
    pub valid_for: u64,
}

} // verus!

use runtime_core::codec::{push_all, push_be32, push_be64, push_framed, push_frames};
use runtime_core::mkvs::log::{key_order, KeyOrder};
use runtime_core::mkvs::root::{Namespace, Root, RootType};
use runtime_core::roothash::{ComputeResultsHeader, Header};
use runtime_core::scheduler::{Committee, CommitteeNode, CommitteeType, Contract, Role, WireCommitteeNode, WireRole};
use runtime_core::signature::{PublicKey, Signature};
use std::sync::Arc;

#[test]
fn integers_are_written_most_significant_byte_first() {
    let mut out = vec![0xaa];
    push_be64(&mut out, 0x0102030405060708);
    assert_eq!(out, vec![0xaa, 1, 2, 3, 4, 5, 6, 7, 8]);
    let mut out = Vec::new();
    push_be64(&mut out, u64::MAX);
    push_be64(&mut out, 0);
    assert_eq!(out, [vec![0xff; 8], vec![0; 8]].concat());
    let mut out = Vec::new();
    push_be32(&mut out, 0xdeadbeef);
    push_be32(&mut out, 1);
    assert_eq!(out, vec![0xde, 0xad, 0xbe, 0xef, 0, 0, 0, 1]);
}

#[test]
fn byte_strings_are_framed_by_their_length() {
    let mut out = Vec::new();
    push_framed(&mut out, b"abc");
    assert_eq!(out, vec![0, 0, 0, 0, 0, 0, 0, 3, b'a', b'b', b'c']);
    let mut out = vec![1];
    push_framed(&mut out, b"");
    assert_eq!(out, vec![1, 0, 0, 0, 0, 0, 0, 0, 0]);
    let mut out = Vec::new();
    push_frames(&mut out, &vec![b"a".to_vec(), Vec::new(), b"bc".to_vec()]);
    assert_eq!(
        out,
        vec![0, 0, 0, 0, 0, 0, 0, 1, b'a', 0, 0, 0, 0, 0, 0, 0, 0, 0, 0, 0, 0, 0, 0, 0, 2, b'b', b'c']
    );
    let mut out = vec![5];
    push_frames(&mut out, &Vec::new());
    assert_eq!(out, vec![5]);
    push_all(&mut out, &[6, 7]);
    assert_eq!(out, vec![5, 6, 7]);
}

#[test]
fn keys_are_ordered_byte_by_byte() {
    assert_eq!(key_order(b"", b""), KeyOrder::Same);
    assert_eq!(key_order(b"abc", b"abc"), KeyOrder::Same);
    assert_eq!(key_order(b"", b"a"), KeyOrder::Before);
    assert_eq!(key_order(b"a", b""), KeyOrder::After);
    assert_eq!(key_order(b"ab", b"abc"), KeyOrder::Before);
    assert_eq!(key_order(b"abd", b"abc"), KeyOrder::After);
    assert_eq!(key_order(&[0x7f], &[0x80]), KeyOrder::Before);
    assert_eq!(key_order(&[0xff], &[0x00, 0x00]), KeyOrder::After);
}

#[test]
fn block_header_encoding() {
    let h = Header { namespace: Namespace { bytes: [0x11; 32] }, round: 0x0a0b, state_root: runtime_core::hash::Hash { bytes: [0x22; 32] } };
    let mut expected = vec![0x11; 32];
    expected.extend_from_slice(&[0, 0, 0, 0, 0, 0, 0x0a, 0x0b]);
    expected.extend_from_slice(&[0x22; 32]);
    assert_eq!(h.encode(), expected);
    assert_eq!(h.encoded_hash(), runtime_core::hash::Hash::digest_bytes(&expected));
    let other = Header { round: 0x0a0c, ..h };
    assert_ne!(h.encoded_hash(), other.encoded_hash());
}

#[test]
fn results_header_encoding() {
    let h = ComputeResultsHeader {
        round: 3,
        previous_hash: runtime_core::hash::Hash { bytes: [1; 32] },
        io_root: Some(runtime_core::hash::Hash { bytes: [2; 32] }),
        state_root: None,
        messages: vec![b"hi".to_vec()],
    };
    let mut expected = vec![0, 0, 0, 0, 0, 0, 0, 3];
    expected.extend_from_slice(&[1; 32]);
    expected.push(1);
    expected.extend_from_slice(&[2; 32]);
    expected.push(0);
    expected.extend_from_slice(&[0, 0, 0, 0, 0, 0, 0, 1]);
    expected.extend_from_slice(&[0, 0, 0, 0, 0, 0, 0, 2, b'h', b'i']);
    assert_eq!(h.encode(), expected);
    let bare = ComputeResultsHeader { round: 0, previous_hash: runtime_core::hash::Hash::zero(), io_root: None, state_root: None, messages: vec![] };
    assert_eq!(bare.encode().len(), 8 + 32 + 1 + 1 + 8);
}

#[test]
fn roots_are_the_same_only_if_all_fields_agree() {
    let root = Root { namespace: Namespace { bytes: [1; 32] }, version: 5, root_type: RootType::State, hash: runtime_core::hash::Hash { bytes: [9; 32] } };
    assert!(root.same(&root.clone()));
    assert!(!root.same(&Root { namespace: Namespace { bytes: [2; 32] }, ..root }));
    assert!(!root.same(&Root { version: 6, ..root }));
    assert!(!root.same(&Root { root_type: RootType::IO, ..root }));
    assert!(!root.same(&Root { hash: runtime_core::hash::Hash { bytes: [8; 32] }, ..root }));
    let mut almost = [9u8; 32];
    almost[31] = 0;
    assert!(!root.same(&Root { hash: runtime_core::hash::Hash { bytes: almost }, ..root }));
    assert_ne!(root, Root { root_type: RootType::IO, ..root });
}

#[test]
fn the_unset_root_is_all_zero() {
    let r = Root::unset();
    assert_eq!(r.namespace, Namespace::zero());
    assert_eq!(r.namespace.bytes, [0; 32]);
    assert_eq!(r.version, 0);
    assert_eq!(r.root_type, RootType::State);
    assert_eq!(r.hash, runtime_core::hash::Hash::zero());
    assert!(Namespace::zero().same(&Namespace { bytes: [0; 32] }));
    assert!(!Namespace::zero().same(&Namespace { bytes: [1; 32] }));
}

#[test]
fn hashes_compare_and_copy_out() {
    let a = runtime_core::hash::Hash::digest_bytes(b"a");
    let b = runtime_core::hash::Hash::digest_bytes(b"b");
    assert!(a.same(&a));
    assert!(!a.same(&b));
    assert_eq!(a.to_vec(), a.bytes.to_vec());
    assert_eq!(runtime_core::hash::HASH_SIZE, 32);
    assert_eq!(runtime_core::hash::Hash::zero().bytes, [0; 32]);
}

#[test]
fn the_default_signature_is_all_zero() {
    assert_eq!(Signature::default().bytes, [0; 64]);
}

#[test]
fn committee_nodes_go_to_the_wire_and_back() {
    let node = CommitteeNode { role: Role::Leader, public_key: PublicKey { bytes: [7; 32] } };
    let wire = node.into();
    assert_eq!(wire, WireCommitteeNode { role: WireRole::Leader, public_key: [7; 32] });
    assert_eq!(CommitteeNode::try_from(wire), Ok(node));
    let worker = CommitteeNode { role: Role::Worker, public_key: PublicKey { bytes: [0; 32] } };
    assert_eq!(worker.into().role, WireRole::Worker);
    assert_eq!(CommitteeNode::try_from(worker.into()), Ok(worker));
}

#[test]
fn every_committee_node_on_the_wire_is_taken_in() {
    for role in [WireRole::Worker, WireRole::Leader] {
        for byte in [0u8, 1, 0x7f, 0xff] {
            let mut key = [byte; 32];
            key[31] = 9;
            let node = CommitteeNode::try_from(WireCommitteeNode { role, public_key: key }).unwrap();
            assert_eq!(node.public_key.bytes, key);
            assert_eq!(node.role == Role::Leader, role == WireRole::Leader);
            assert_eq!(node.role == Role::Worker, role == WireRole::Worker);
        }
    }
}

#[test]
fn a_committee_holds_its_members() {
    let committee = Committee {
        kind: CommitteeType::Compute,
        members: vec![
            CommitteeNode { role: Role::Leader, public_key: PublicKey { bytes: [1; 32] } },
            CommitteeNode { role: Role::Worker, public_key: PublicKey { bytes: [2; 32] } },
        ],
        contract: Arc::new(Contract { id: [3; 32] }),
        valid_for: 12,
    };
    assert_eq!(committee.clone(), committee);
    assert_ne!(committee.kind, CommitteeType::Storage);
    assert_eq!(committee.members[0].role, Role::Leader);
}

use runtime_core::mkvs::log::LogEntry;
use runtime_core::mkvs::node::{admit_record, check_record, encode, TreeError, PATH_LEN};
use runtime_core::mkvs::root::{Namespace, Root, RootType};
use runtime_core::mkvs::sync::{NodeRecord, NoopReadSyncer, ReadSync, SyncError};
use runtime_core::mkvs::tree::{ConfigError, Tree, DEFAULT_NODE_CAPACITY, DEFAULT_VALUE_CAPACITY};
use sha2::Digest;
use std::cell::RefCell;
use std::collections::{BTreeMap, HashMap};
use std::rc::Rc;

// An independent construction of the tree: the nodes of the trie over the
// bits of the hashes of the keys, hashed with the digest crate directly.

fn sha(data: &[u8]) -> [u8; 32] {
    sha2::Sha512_256::digest(data).into()
}

fn bits_of(key: &[u8]) -> Vec<bool> {
    let mut out = Vec::new();
    for byte in key {
        for j in 0..8u32 {
            out.push((byte >> (7 - j)) & 1 == 1);
        }
    }
    out
}

type Store = HashMap<[u8; 32], NodeRecord>;

fn build(store: &mut Store, entries: &[(Vec<bool>, Vec<u8>)], depth: usize) -> [u8; 32] {
    if entries.is_empty() {
        return sha(&[]);
    }
    let mut value: Option<Vec<u8>> = None;
    let mut left = Vec::new();
    let mut right = Vec::new();
    for (bits, v) in entries {
        if bits.len() == depth {
            value = Some(v.clone());
        } else if bits[depth] {
            right.push((bits.clone(), v.clone()));
        } else {
            left.push((bits.clone(), v.clone()));
        }
    }
    let lh = build(store, &left, depth + 1);
    let rh = build(store, &right, depth + 1);
    let mut enc = Vec::new();
    match &value {
        Some(v) => {
            enc.push(1u8);
            enc.extend_from_slice(&lh);
            enc.extend_from_slice(&rh);
            enc.extend_from_slice(v);
        }
        None => {
            enc.push(0u8);
            enc.extend_from_slice(&lh);
            enc.extend_from_slice(&rh);
        }
    }
    let h = sha(&enc);
    store.insert(
        h,
        NodeRecord {
            value,
            left: runtime_core::hash::Hash { bytes: lh },
            right: runtime_core::hash::Hash { bytes: rh },
        },
    );
    h
}

fn reference_root(store: &mut Store, content: &BTreeMap<Vec<u8>, Vec<u8>>) -> [u8; 32] {
    let entries: Vec<(Vec<bool>, Vec<u8>)> = content.iter().map(|(k, v)| (bits_of(&sha(k)), v.clone())).collect();
    build(store, &entries, 0)
}

struct HostStore {
    nodes: Rc<RefCell<Store>>,
    fetches: Rc<RefCell<usize>>,
}

impl ReadSync for HostStore {
    fn sync_get(&mut self, _root: &Root, node: &runtime_core::hash::Hash) -> Result<NodeRecord, SyncError> {
        *self.fetches.borrow_mut() += 1;
        match self.nodes.borrow().get(&node.bytes) {
            Some(record) => Ok(record.clone()),
            None => Err(SyncError::Unavailable),
        }
    }
}

struct LyingStore;

impl ReadSync for LyingStore {
    fn sync_get(&mut self, _root: &Root, _node: &runtime_core::hash::Hash) -> Result<NodeRecord, SyncError> {
        Ok(NodeRecord {
            value: Some(vec![1, 2, 3]),
            left: runtime_core::hash::Hash::empty_hash(),
            right: runtime_core::hash::Hash::empty_hash(),
        })
    }
}

fn namespace(b: u8) -> Namespace {
    Namespace { bytes: [b; 32] }
}

fn local_tree() -> Tree {
    Tree::make().with_capacity(0, 0).with_root_type(RootType::State).new(Box::new(NoopReadSyncer)).unwrap()
}

fn state_root(hash: [u8; 32], version: u64) -> Root {
    Root { namespace: namespace(1), version, root_type: RootType::State, hash: runtime_core::hash::Hash { bytes: hash } }
}

fn sample_content(n: u32) -> BTreeMap<Vec<u8>, Vec<u8>> {
    let mut content = BTreeMap::new();
    for i in 0..n {
        let key = sha(&i.to_be_bytes())[..6].to_vec();
        let value = format!("value-{}", i).into_bytes();
        content.insert(key, value);
    }
    content
}

#[test]
fn options_defaults() {
    assert_eq!(DEFAULT_NODE_CAPACITY, 50_000);
    assert_eq!(DEFAULT_VALUE_CAPACITY, 16 * 1024 * 1024);
    assert_eq!(PATH_LEN, 32);
}

#[test]
fn options_without_root_or_type_are_rejected() {
    let r = Tree::make().new(Box::new(NoopReadSyncer));
    assert!(matches!(r, Err(ConfigError::MissingRoot)));
    let r = Tree::make().with_capacity(1, 1).new(Box::new(NoopReadSyncer));
    assert!(matches!(r, Err(ConfigError::MissingRoot)));
}

#[test]
fn options_with_disagreeing_root_and_type_are_rejected() {
    let root = state_root(sha(&[]), 3);
    let r = Tree::make().with_root(root).with_root_type(RootType::IO).new(Box::new(NoopReadSyncer));
    assert!(matches!(r, Err(ConfigError::RootTypeMismatch)));
    let r = Tree::make().with_root_type(RootType::IO).with_root(root).new(Box::new(NoopReadSyncer));
    assert!(matches!(r, Err(ConfigError::RootTypeMismatch)));
}

#[test]
fn options_with_agreeing_root_and_type_build_a_tree() {
    let root = state_root(sha(&[]), 3);
    let tree = Tree::make().with_root(root).with_root_type(RootType::State).new(Box::new(NoopReadSyncer)).unwrap();
    assert_eq!(tree.root_type(), RootType::State);
    assert_eq!(tree.root(), root);
    assert_eq!(tree.pending_len(), 0);
}

#[test]
fn tree_with_type_only_is_empty() {
    let mut tree = Tree::make().with_root_type(RootType::IO).new(Box::new(NoopReadSyncer)).unwrap();
    assert_eq!(tree.root_type(), RootType::IO);
    assert_eq!(tree.root().hash.bytes, sha(&[]));
    assert_eq!(tree.root().version, 0);
    assert_eq!(tree.get(b"anything"), Ok(None));
    let (log, hash) = tree.commit(namespace(0), 0);
    assert!(log.is_empty());
    assert_eq!(hash.bytes, sha(&[]));
}

#[test]
fn tree_new_takes_the_type_of_the_root() {
    let root = Root { namespace: namespace(2), version: 9, root_type: RootType::IO, hash: runtime_core::hash::Hash::empty_hash() };
    let opts = Tree::make().with_root(root);
    let tree = Tree::new(Box::new(NoopReadSyncer), &opts);
    assert_eq!(tree.root_type(), RootType::IO);
    assert_eq!(tree.root(), root);
}

#[test]
fn insert_get_overwrite_remove() {
    let mut tree = local_tree();
    assert_eq!(tree.insert(b"alpha", b"one".to_vec()), Ok(None));
    assert_eq!(tree.insert(b"beta", b"two".to_vec()), Ok(None));
    assert_eq!(tree.get(b"alpha"), Ok(Some(b"one".to_vec())));
    assert_eq!(tree.get(b"beta"), Ok(Some(b"two".to_vec())));
    assert_eq!(tree.get(b"gamma"), Ok(None));
    assert_eq!(tree.insert(b"alpha", b"uno".to_vec()), Ok(Some(b"one".to_vec())));
    assert_eq!(tree.get(b"alpha"), Ok(Some(b"uno".to_vec())));
    assert_eq!(tree.remove(b"alpha"), Ok(Some(b"uno".to_vec())));
    assert_eq!(tree.get(b"alpha"), Ok(None));
    assert_eq!(tree.remove(b"alpha"), Ok(None));
    assert_eq!(tree.get(b"beta"), Ok(Some(b"two".to_vec())));
    assert_eq!(tree.pending_len(), 2);
}

#[test]
fn a_key_that_is_a_prefix_of_another() {
    let mut tree = local_tree();
    tree.insert(b"ab", b"short".to_vec()).unwrap();
    tree.insert(b"abc", b"long".to_vec()).unwrap();
    tree.insert(b"", b"empty".to_vec()).unwrap();
    assert_eq!(tree.get(b"ab"), Ok(Some(b"short".to_vec())));
    assert_eq!(tree.get(b"abc"), Ok(Some(b"long".to_vec())));
    assert_eq!(tree.get(b""), Ok(Some(b"empty".to_vec())));
    assert_eq!(tree.get(b"a"), Ok(None));
    tree.remove(b"ab").unwrap();
    assert_eq!(tree.get(b"ab"), Ok(None));
    assert_eq!(tree.get(b"abc"), Ok(Some(b"long".to_vec())));
    assert_eq!(tree.get(b""), Ok(Some(b"empty".to_vec())));
}

#[test]
fn an_empty_value_is_a_value() {
    let mut tree = local_tree();
    tree.insert(b"k", Vec::new()).unwrap();
    assert_eq!(tree.get(b"k"), Ok(Some(Vec::new())));
    let (log, hash) = tree.commit(namespace(1), 1);
    assert_eq!(log, vec![LogEntry { key: b"k".to_vec(), value: Some(Vec::new()) }]);
    let mut other = local_tree();
    let (_, empty) = other.commit(namespace(1), 1);
    assert_ne!(hash, empty);
}

#[test]
fn keys_of_any_length_are_keys() {
    let mut tree = local_tree();
    let long = vec![0xa5u8; 100_000];
    let mut longer = long.clone();
    longer.push(0);
    assert_eq!(tree.get(&long), Ok(None));
    assert_eq!(tree.insert(&long, vec![1]), Ok(None));
    assert_eq!(tree.insert(&longer, vec![2]), Ok(None));
    assert_eq!(tree.insert(b"", vec![3]), Ok(None));
    assert_eq!(tree.get(&long), Ok(Some(vec![1])));
    assert_eq!(tree.get(&longer), Ok(Some(vec![2])));
    assert_eq!(tree.get(b""), Ok(Some(vec![3])));
    assert_eq!(tree.remove(&long), Ok(Some(vec![1])));
    assert_eq!(tree.get(&long), Ok(None));
    let (log, hash) = tree.commit(namespace(1), 1);
    assert_eq!(
        log,
        vec![LogEntry { key: Vec::new(), value: Some(vec![3]) }, LogEntry { key: longer.clone(), value: Some(vec![2]) }]
    );
    let mut content = BTreeMap::new();
    content.insert(longer, vec![2]);
    content.insert(Vec::new(), vec![3]);
    let mut store = Store::new();
    assert_eq!(hash.bytes, reference_root(&mut store, &content));
}

#[test]
fn commit_gives_the_hash_of_the_canonical_nodes() {
    let content = sample_content(40);
    let mut tree = local_tree();
    for (k, v) in &content {
        tree.insert(k, v.clone()).unwrap();
    }
    let (log, hash) = tree.commit(namespace(1), 1);
    let mut store = Store::new();
    assert_eq!(hash.bytes, reference_root(&mut store, &content));
    let expected: Vec<LogEntry> =
        content.iter().map(|(k, v)| LogEntry { key: k.clone(), value: Some(v.clone()) }).collect();
    assert_eq!(log, expected);
    assert_eq!(tree.root(), Root { namespace: namespace(1), version: 1, root_type: RootType::State, hash });
}

#[test]
fn the_root_hash_does_not_depend_on_the_order_of_writes() {
    let content = sample_content(25);
    let mut forward = local_tree();
    for (k, v) in content.iter() {
        forward.insert(k, v.clone()).unwrap();
    }
    let mut backward = local_tree();
    for (k, v) in content.iter().rev() {
        backward.insert(k, b"other".to_vec()).unwrap();
        backward.insert(k, v.clone()).unwrap();
    }
    backward.insert(b"gone", b"x".to_vec()).unwrap();
    backward.remove(b"gone").unwrap();
    assert_eq!(forward.commit(namespace(1), 1).1, backward.commit(namespace(1), 1).1);
}

#[test]
fn removing_everything_gives_the_empty_root() {
    let content = sample_content(12);
    let mut tree = local_tree();
    for (k, v) in &content {
        tree.insert(k, v.clone()).unwrap();
    }
    tree.commit(namespace(1), 1);
    for k in content.keys() {
        tree.remove(k).unwrap();
    }
    let (log, hash) = tree.commit(namespace(1), 2);
    assert_eq!(hash.bytes, sha(&[]));
    let expected: Vec<LogEntry> = content.keys().map(|k| LogEntry { key: k.clone(), value: None }).collect();
    assert_eq!(log, expected);
}

#[test]
fn commit_without_pending_writes_keeps_the_root_hash() {
    let mut tree = local_tree();
    tree.insert(b"a", b"1".to_vec()).unwrap();
    tree.insert(b"b", b"2".to_vec()).unwrap();
    let (_, first) = tree.commit(namespace(1), 1);
    let (log, second) = tree.commit(namespace(1), 2);
    assert!(log.is_empty());
    assert_eq!(first, second);
    assert_eq!(tree.get(b"a"), Ok(Some(b"1".to_vec())));
    let (log, third) = tree.commit(namespace(1), 3);
    assert!(log.is_empty());
    assert_eq!(first, third);
    assert_eq!(tree.root().version, 3);
}

#[test]
fn commit_of_a_tree_opened_at_a_root_returns_that_root() {
    let hash = sha(b"some committed tree");
    let mut tree = Tree::make().with_root(state_root(hash, 5)).new(Box::new(NoopReadSyncer)).unwrap();
    let (log, committed) = tree.commit(namespace(1), 6);
    assert!(log.is_empty());
    assert_eq!(committed.bytes, hash);
}

#[test]
fn write_log_is_ordered_and_leaves_out_what_came_and_went() {
    let mut tree = local_tree();
    tree.insert(b"kept", b"old".to_vec()).unwrap();
    tree.commit(namespace(1), 1);
    tree.insert(b"zz", b"26".to_vec()).unwrap();
    tree.insert(b"aa", b"1".to_vec()).unwrap();
    tree.insert(b"mm", b"13".to_vec()).unwrap();
    tree.insert(b"a", b"0".to_vec()).unwrap();
    tree.insert(b"temp", b"t".to_vec()).unwrap();
    tree.remove(b"temp").unwrap();
    tree.remove(b"never").unwrap();
    tree.remove(b"kept").unwrap();
    tree.insert(b"aa", b"one".to_vec()).unwrap();
    let (log, _) = tree.commit(namespace(1), 2);
    assert_eq!(
        log,
        vec![
            LogEntry { key: b"a".to_vec(), value: Some(b"0".to_vec()) },
            LogEntry { key: b"aa".to_vec(), value: Some(b"one".to_vec()) },
            LogEntry { key: b"kept".to_vec(), value: None },
            LogEntry { key: b"mm".to_vec(), value: Some(b"13".to_vec()) },
            LogEntry { key: b"zz".to_vec(), value: Some(b"26".to_vec()) },
        ]
    );
    assert_eq!(tree.pending_len(), 0);
}

#[test]
fn a_removed_key_that_is_written_again_shows_in_the_log() {
    let mut tree = local_tree();
    tree.insert(b"k", b"1".to_vec()).unwrap();
    tree.commit(namespace(1), 1);
    tree.remove(b"k").unwrap();
    tree.insert(b"k", b"2".to_vec()).unwrap();
    let (log, _) = tree.commit(namespace(1), 2);
    assert_eq!(log, vec![LogEntry { key: b"k".to_vec(), value: Some(b"2".to_vec()) }]);
}

#[test]
fn a_remote_tree_without_a_syncer_cannot_read() {
    let hash = sha(b"some committed tree");
    let mut tree = Tree::make().with_root(state_root(hash, 5)).new(Box::new(NoopReadSyncer)).unwrap();
    assert_eq!(tree.get(b"k"), Err(TreeError::NodeUnavailable));
    assert_eq!(tree.insert(b"k", vec![1]), Err(TreeError::NodeUnavailable));
    assert_eq!(tree.remove(b"k"), Err(TreeError::NodeUnavailable));
    assert_eq!(tree.pending_len(), 0);
    assert_eq!(tree.commit(namespace(1), 6).1.bytes, hash);
}

#[test]
fn a_record_that_does_not_hash_to_the_node_is_rejected() {
    let hash = sha(b"some committed tree");
    let mut tree = Tree::make().with_root(state_root(hash, 5)).new(Box::new(LyingStore)).unwrap();
    assert_eq!(tree.get(b"k"), Err(TreeError::ProofMismatch));
    assert_eq!(tree.insert(b"k", vec![1]), Err(TreeError::ProofMismatch));
    assert_eq!(tree.commit(namespace(1), 6).1.bytes, hash);
}

#[test]
fn check_record_accepts_exactly_the_node() {
    let record = NodeRecord {
        value: Some(b"v".to_vec()),
        left: runtime_core::hash::Hash::empty_hash(),
        right: runtime_core::hash::Hash { bytes: [9; 32] },
    };
    let bytes = encode(&record.value, &record.left, &record.right);
    let mut expected = vec![1u8];
    expected.extend_from_slice(&sha(&[]));
    expected.extend_from_slice(&[9; 32]);
    expected.push(b'v');
    assert_eq!(bytes, expected);
    let hash = runtime_core::hash::Hash { bytes: sha(&bytes) };
    assert!(check_record(&hash, &record));
    let other = NodeRecord { value: None, ..record.clone() };
    assert!(!check_record(&hash, &other));
    assert_eq!(encode(&other.value, &other.left, &other.right).len(), 65);
    assert!(!check_record(&runtime_core::hash::Hash { bytes: [0; 32] }, &record));
}

fn committed(content: &BTreeMap<Vec<u8>, Vec<u8>>) -> (Rc<RefCell<Store>>, [u8; 32]) {
    let mut store = Store::new();
    let root = reference_root(&mut store, content);
    (Rc::new(RefCell::new(store)), root)
}

#[test]
fn round_trip_through_a_fresh_tree() {
    let mut content = sample_content(30);
    let mut tree = local_tree();
    for (k, v) in &content {
        tree.insert(k, v.clone()).unwrap();
    }
    let removed: Vec<Vec<u8>> = content.keys().take(7).cloned().collect();
    for k in &removed {
        tree.remove(k).unwrap();
        content.remove(k);
    }
    let (_, hash) = tree.commit(namespace(1), 1);
    let (nodes, root) = committed(&content);
    assert_eq!(hash.bytes, root);
    let fetches = Rc::new(RefCell::new(0usize));
    let mut fresh = Tree::make()
        .with_root(state_root(root, 1))
        .new(Box::new(HostStore { nodes, fetches: fetches.clone() }))
        .unwrap();
    for (k, v) in &content {
        assert_eq!(fresh.get(k), Ok(Some(v.clone())));
    }
    for k in &removed {
        assert_eq!(fresh.get(k), Ok(None));
    }
    assert!(*fetches.borrow() > 0);
    assert_eq!(fresh.commit(namespace(1), 2).1.bytes, root);
}

#[test]
fn resident_nodes_are_not_fetched_again() {
    let content = sample_content(10);
    let (nodes, root) = committed(&content);
    let fetches = Rc::new(RefCell::new(0usize));
    let mut tree = Tree::make()
        .with_capacity(0, 0)
        .with_root(state_root(root, 1))
        .new(Box::new(HostStore { nodes, fetches: fetches.clone() }))
        .unwrap();
    let key = content.keys().next().unwrap().clone();
    assert_eq!(tree.get(&key), Ok(Some(content[&key].clone())));
    let after_first = *fetches.borrow();
    assert!(after_first > 0);
    assert_eq!(tree.get(&key), Ok(Some(content[&key].clone())));
    assert_eq!(*fetches.borrow(), after_first);
    assert_eq!(tree.cache_usage().0, after_first);
}

#[test]
fn writes_to_a_remote_tree_give_the_root_of_the_whole() {
    let mut content = sample_content(20);
    let (nodes, root) = committed(&content);
    let fetches = Rc::new(RefCell::new(0usize));
    let mut tree = Tree::make()
        .with_capacity(300, 64)
        .with_root(state_root(root, 1))
        .new(Box::new(HostStore { nodes, fetches }))
        .unwrap();
    let victim = content.keys().nth(4).unwrap().clone();
    let changed = content.keys().nth(11).unwrap().clone();
    assert_eq!(tree.remove(&victim), Ok(content.remove(&victim)));
    assert_eq!(tree.insert(&changed, b"changed".to_vec()), Ok(content.insert(changed.clone(), b"changed".to_vec())));
    assert_eq!(tree.insert(b"brand new", b"n".to_vec()), Ok(None));
    content.insert(b"brand new".to_vec(), b"n".to_vec());
    let (log, hash) = tree.commit(namespace(1), 2);
    let mut store = Store::new();
    assert_eq!(hash.bytes, reference_root(&mut store, &content));
    assert_eq!(log.len(), 3);
    assert_eq!(log.iter().filter(|e| e.value.is_none()).count(), 1);
}

#[test]
fn the_cache_stays_within_its_bounds() {
    let content = sample_content(60);
    let (nodes, root) = committed(&content);
    let fetches = Rc::new(RefCell::new(0usize));
    let mut tree = Tree::make()
        .with_capacity(5, 0)
        .with_root(state_root(root, 1))
        .new(Box::new(HostStore { nodes: nodes.clone(), fetches: fetches.clone() }))
        .unwrap();
    for (k, v) in &content {
        assert_eq!(tree.get(k), Ok(Some(v.clone())));
        assert!(tree.cache_usage().0 <= 5);
    }
    let mut more = content.clone();
    for i in 0..40u32 {
        let key = sha(&(1000 + i).to_be_bytes())[..5].to_vec();
        tree.insert(&key, vec![i as u8; 3]).unwrap();
        more.insert(key.clone(), vec![i as u8; 3]);
        assert!(tree.cache_usage().0 <= 5);
        assert_eq!(tree.get(&key), Ok(Some(vec![i as u8; 3])));
    }
    assert_eq!(tree.pending_len(), 40);
    let (_, hash) = tree.commit(namespace(1), 2);
    assert!(tree.cache_usage().0 <= 5);
    let mut store = Store::new();
    assert_eq!(hash.bytes, reference_root(&mut store, &more));
    for (h, r) in store {
        nodes.borrow_mut().insert(h, r);
    }
    for (k, v) in &more {
        assert_eq!(tree.get(k), Ok(Some(v.clone())));
        assert!(tree.cache_usage().0 <= 5);
    }
}

#[test]
fn the_cache_bounds_the_bytes_of_values() {
    let mut content = BTreeMap::new();
    for i in 0..20u8 {
        content.insert(vec![i], vec![i; 10]);
    }
    let (nodes, root) = committed(&content);
    let fetches = Rc::new(RefCell::new(0usize));
    let mut tree = Tree::make()
        .with_capacity(0, 25)
        .with_root(state_root(root, 1))
        .new(Box::new(HostStore { nodes, fetches }))
        .unwrap();
    for (k, v) in &content {
        assert_eq!(tree.get(k), Ok(Some(v.clone())));
        assert!(tree.cache_usage().1 <= 25);
    }
}

#[test]
fn an_unbounded_cache_keeps_everything() {
    let content = sample_content(30);
    let (nodes, root) = committed(&content);
    let fetches = Rc::new(RefCell::new(0usize));
    let mut tree = Tree::make()
        .with_capacity(0, 0)
        .with_root(state_root(root, 1))
        .new(Box::new(HostStore { nodes: nodes.clone(), fetches: fetches.clone() }))
        .unwrap();
    for k in content.keys() {
        tree.get(k).unwrap();
    }
    assert_eq!(tree.cache_usage().0, nodes.borrow().len());
    let total: usize = content.values().map(|v| v.len()).sum();
    assert_eq!(tree.cache_usage().1, total);
    let fetched = *fetches.borrow();
    for k in content.keys() {
        tree.get(k).unwrap();
    }
    assert_eq!(*fetches.borrow(), fetched);
}

#[test]
fn the_least_recently_used_nodes_go_first() {
    let mut content = BTreeMap::new();
    content.insert(b"left".to_vec(), b"l".to_vec());
    content.insert(b"right".to_vec(), b"r".to_vec());
    let (nodes, root) = committed(&content);
    let total = nodes.borrow().len();
    let fetches = Rc::new(RefCell::new(0usize));
    // One path, 257 nodes from the root down, fits; both do not.
    let mut tree = Tree::make()
        .with_capacity(total - 1, 0)
        .with_root(state_root(root, 1))
        .new(Box::new(HostStore { nodes, fetches: fetches.clone() }))
        .unwrap();
    tree.get(b"left").unwrap();
    assert_eq!(tree.cache_usage().0, 257);
    tree.get(b"right").unwrap();
    assert!(tree.cache_usage().0 <= total - 1);
    let fetched = *fetches.borrow();
    // The right path was used last: it is still there.
    tree.get(b"right").unwrap();
    assert_eq!(*fetches.borrow(), fetched);
    assert_eq!(tree.cache_usage().0, 257);
    // What was only on the left path was evicted and is fetched again.
    tree.get(b"left").unwrap();
    assert!(*fetches.borrow() > fetched);
}

#[test]
fn uncommitted_writes_are_never_evicted() {
    let mut tree = Tree::make().with_capacity(1, 1).with_root_type(RootType::State).new(Box::new(NoopReadSyncer)).unwrap();
    let content = sample_content(30);
    for (k, v) in &content {
        tree.insert(k, v.clone()).unwrap();
    }
    assert_eq!(tree.cache_usage(), (0, 0));
    for (k, v) in &content {
        assert_eq!(tree.get(k), Ok(Some(v.clone())));
    }
    let (_, hash) = tree.commit(namespace(1), 1);
    assert!(tree.cache_usage().0 <= 1);
    let mut store = Store::new();
    assert_eq!(hash.bytes, reference_root(&mut store, &content));
}

#[test]
fn reopen_forgets_everything() {
    let mut tree = local_tree();
    tree.insert(b"a", b"1".to_vec()).unwrap();
    let root = Root { namespace: namespace(4), version: 7, root_type: RootType::IO, hash: runtime_core::hash::Hash::empty_hash() };
    tree.reopen(root);
    assert_eq!(tree.pending_len(), 0);
    assert_eq!(tree.root(), root);
    assert_eq!(tree.root_type(), RootType::IO);
    assert_eq!(tree.get(b"a"), Ok(None));
}

#[test]
fn rollback_drops_uncommitted_writes() {
    let mut tree = local_tree();
    tree.insert(b"kept", b"1".to_vec()).unwrap();
    let (_, hash) = tree.commit(namespace(1), 1);
    tree.rollback();
    assert_eq!(tree.commit(namespace(1), 1).1, hash);
    tree.insert(b"dropped", b"2".to_vec()).unwrap();
    tree.remove(b"kept").unwrap();
    assert_eq!(tree.pending_len(), 2);
    tree.rollback();
    assert_eq!(tree.pending_len(), 0);
    assert_eq!(tree.root().hash, hash);
    let (log, again) = tree.commit(namespace(1), 2);
    assert!(log.is_empty());
    assert_eq!(again, hash);
}

#[test]
fn rollback_without_writes_keeps_the_cache() {
    let content = sample_content(10);
    let (nodes, root) = committed(&content);
    let fetches = Rc::new(RefCell::new(0usize));
    let mut tree = Tree::make()
        .with_root(state_root(root, 1))
        .new(Box::new(HostStore { nodes, fetches: fetches.clone() }))
        .unwrap();
    let key = content.keys().next().unwrap().clone();
    tree.get(&key).unwrap();
    let fetched = *fetches.borrow();
    tree.rollback();
    assert_eq!(tree.get(&key), Ok(Some(content[&key].clone())));
    assert_eq!(*fetches.borrow(), fetched);
    tree.insert(b"x", vec![1]).unwrap();
    tree.rollback();
    assert_eq!(tree.cache_usage(), (0, 0));
    assert_eq!(tree.get(&key), Ok(Some(content[&key].clone())));
    assert!(*fetches.borrow() > fetched);
    assert_eq!(tree.get(b"x"), Ok(None));
}

#[test]
fn nothing_is_evicted_while_the_cache_has_room() {
    let content = sample_content(6);
    let (nodes, root) = committed(&content);
    let total = nodes.borrow().len();
    let fetches = Rc::new(RefCell::new(0usize));
    let mut tree = Tree::make()
        .with_capacity(total, 0)
        .with_root(state_root(root, 1))
        .new(Box::new(HostStore { nodes, fetches: fetches.clone() }))
        .unwrap();
    for k in content.keys() {
        tree.get(k).unwrap();
    }
    assert_eq!(tree.cache_usage().0, total);
    assert_eq!(*fetches.borrow(), total);
    for k in content.keys() {
        tree.get(k).unwrap();
    }
    assert_eq!(*fetches.borrow(), total);
}

#[test]
fn a_fetched_record_is_admitted_if_it_is_the_node() {
    let record = NodeRecord {
        value: Some(b"v".to_vec()),
        left: runtime_core::hash::Hash { bytes: [4; 32] },
        right: runtime_core::hash::Hash::empty_hash(),
    };
    let wanted = runtime_core::hash::Hash { bytes: sha(&encode(&record.value, &record.left, &record.right)) };
    assert_eq!(admit_record(&wanted, Ok(record.clone())), Ok(record.clone()));
    assert_eq!(
        admit_record(&runtime_core::hash::Hash { bytes: [0; 32] }, Ok(record.clone())),
        Err(TreeError::ProofMismatch)
    );
    let other = NodeRecord { value: Some(b"w".to_vec()), ..record };
    assert_eq!(admit_record(&wanted, Ok(other)), Err(TreeError::ProofMismatch));
    assert_eq!(admit_record(&wanted, Err(SyncError::Unavailable)), Err(TreeError::NodeUnavailable));
    assert_eq!(admit_record(&wanted, Err(SyncError::Unsupported)), Err(TreeError::NodeUnavailable));
}

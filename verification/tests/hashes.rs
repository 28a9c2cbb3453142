use live_sync::hashes::{MissingHashes, ProviderNodes, QueuedHashes};
use live_sync::ids::{ContentHash, NamespaceId, PublicKey};

fn hash(content: &[u8]) -> ContentHash {
    ContentHash::from_bytes(*iroh_blobs::Hash::new(content).as_bytes())
}

fn namespace(byte: u8) -> NamespaceId {
    NamespaceId::from_bytes([byte; 32])
}

fn peer(byte: u8) -> PublicKey {
    let key = iroh::SecretKey::from_bytes(&[byte; 32]).public();
    PublicKey::from_bytes(key.as_bytes()).unwrap()
}

#[test]
fn missing_hashes_are_tracked_per_namespace() {
    let h1 = hash(b"h1");
    let h2 = hash(b"h2");
    let n1 = NamespaceId::from_bytes([1; 32]);
    let n2 = NamespaceId::from_bytes([2; 32]);

    let mut missing = MissingHashes::new();
    missing.insert(h1, n1);
    missing.insert(h1, n2);
    missing.insert(h2, n1);

    assert!(missing.contains(h1, &n1));
    assert!(missing.contains(h1, &n2));
    assert!(missing.contains(h2, &n1));
    assert!(!missing.contains(h2, &n2));

    let n1_hashes = missing.hashes_for_namespace(&n1);
    assert_eq!(n1_hashes.len(), 2);
    assert!(n1_hashes.contains(&h1));
    assert!(n1_hashes.contains(&h2));

    assert!(missing.remove(h1, &n1));
    assert!(!missing.contains(h1, &n1));
    assert!(missing.contains(h1, &n2));
    assert_eq!(missing.hashes_for_namespace(&n1), vec![h2]);

    assert!(missing.remove(h1, &n2));
    assert!(!missing.contains(h1, &n2));
    assert!(missing.hashes_for_namespace(&n2).is_empty());
}

#[test]
fn removing_what_is_not_missing_changes_nothing() {
    let mut missing = MissingHashes::new();
    assert!(!missing.remove(hash(b"a"), &namespace(1)));
    missing.insert(hash(b"a"), namespace(1));
    missing.insert(hash(b"a"), namespace(1));
    assert!(!missing.remove(hash(b"a"), &namespace(2)));
    assert!(!missing.remove(hash(b"b"), &namespace(1)));
    assert_eq!(missing.hashes_for_namespace(&namespace(1)), vec![hash(b"a")]);
    assert!(missing.remove(hash(b"a"), &namespace(1)));
    assert!(!missing.remove(hash(b"a"), &namespace(1)));
}

#[test]
fn a_removed_hash_completes_the_documents_that_wait_for_nothing_else() {
    let mut queued = QueuedHashes::new();
    queued.insert(hash(b"a"), namespace(1));
    queued.insert(hash(b"a"), namespace(2));
    queued.insert(hash(b"b"), namespace(2));

    assert!(queued.contains_hash(&hash(b"a")));
    assert!(queued.contains_hash(&hash(b"b")));
    assert!(!queued.contains_hash(&hash(b"c")));
    assert!(queued.contains_namespace(&namespace(1)));
    assert!(!queued.contains_namespace(&namespace(3)));

    let removed = queued.remove_hash(&hash(b"a"));
    assert_eq!(removed.namespaces.len(), 2);
    assert!(removed.namespaces.contains(&namespace(1)));
    assert!(removed.namespaces.contains(&namespace(2)));
    assert_eq!(removed.completed_namespaces, vec![namespace(1)]);
    assert!(!queued.contains_hash(&hash(b"a")));
    assert!(!queued.contains_namespace(&namespace(1)));
    assert!(queued.contains_namespace(&namespace(2)));

    let removed = queued.remove_hash(&hash(b"a"));
    assert!(removed.namespaces.is_empty());
    assert!(removed.completed_namespaces.is_empty());

    let removed = queued.remove_hash(&hash(b"b"));
    assert_eq!(removed.completed_namespaces, vec![namespace(2)]);
}

#[test]
fn providers_are_found_by_hash() {
    let mut providers = ProviderNodes::new();
    assert!(providers.find_providers(&hash(b"a")).is_empty());
    providers.insert(hash(b"a"), peer(1));
    providers.insert(hash(b"a"), peer(2));
    providers.insert(hash(b"a"), peer(1));
    providers.insert(hash(b"b"), peer(3));
    let found = providers.find_providers(&hash(b"a"));
    assert_eq!(found.len(), 2);
    assert!(found.contains(&peer(1)));
    assert!(found.contains(&peer(2)));
    assert_eq!(providers.find_providers(&hash(b"b")), vec![peer(3)]);
}

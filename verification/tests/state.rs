use live_sync::ids::{NamespaceId, PublicKey};
use live_sync::sorted::comes_before;
use live_sync::state::{AbortReason, AcceptOutcome, NamespaceStates, Origin, SyncReason};
use n0_future::time::{Duration, SystemTime};

fn namespace(byte: u8) -> NamespaceId {
    NamespaceId::from_bytes([byte; 32])
}

fn peer(byte: u8) -> PublicKey {
    let key = iroh::SecretKey::from_bytes(&[byte; 32]).public();
    PublicKey::from_bytes(key.as_bytes()).unwrap()
}

fn at(seconds: u64) -> SystemTime {
    SystemTime::UNIX_EPOCH + Duration::from_secs(seconds)
}

/// Two peers, the one with the greater identifier first.
fn greater_and_smaller() -> (PublicKey, PublicKey) {
    let (a, b) = (peer(1), peer(2));
    if comes_before(a.as_bytes(), b.as_bytes()) {
        (b, a)
    } else {
        (a, b)
    }
}

const TIE: AcceptOutcome = AcceptOutcome::Reject(AbortReason::AlreadySyncing);

#[test]
fn a_document_that_is_not_synced_is_not_found() {
    let mut states = NamespaceStates::new();
    let ns = namespace(1);
    assert!(!states.is_syncing(&ns));
    assert!(!states.start_connect(&ns, peer(1), SyncReason::DirectJoin, at(1)));
    assert_eq!(
        states.accept_request(&peer(2), &ns, peer(1), at(1)),
        AcceptOutcome::Reject(AbortReason::NotFound)
    );
    assert_eq!(states.finish(&ns, peer(1), &Origin::Accept), None);
    assert_eq!(states.may_emit_ready(&ns), None);
    states.set_may_emit_ready(&ns, true);
    assert!(!states.is_syncing(&ns));
    assert!(!states.remove(&ns));
}

#[test]
fn one_dial_at_a_time() {
    let mut states = NamespaceStates::new();
    let ns = namespace(1);
    states.insert(ns);
    assert!(states.start_connect(&ns, peer(1), SyncReason::DirectJoin, at(1)));
    assert!(!states.start_connect(&ns, peer(1), SyncReason::NewNeighbor, at(2)));
    assert!(states.start_connect(&ns, peer(2), SyncReason::NewNeighbor, at(2)));
    // opening once more changes nothing
    states.insert(ns);
    let origin = Origin::Connect(SyncReason::DirectJoin);
    assert_eq!(states.finish(&ns, peer(1), &origin), Some((at(1), false)));
    assert_eq!(states.finish(&ns, peer(1), &origin), None);
    assert!(states.start_connect(&ns, peer(1), SyncReason::Resync, at(3)));
}

#[test]
fn news_reported_during_a_sync_ask_for_another_one() {
    let mut states = NamespaceStates::new();
    let ns = namespace(1);
    states.insert(ns);
    assert!(states.start_connect(&ns, peer(1), SyncReason::SyncReport, at(1)));
    assert!(!states.start_connect(&ns, peer(1), SyncReason::SyncReport, at(2)));
    let origin = Origin::Connect(SyncReason::SyncReport);
    assert_eq!(states.finish(&ns, peer(1), &origin), Some((at(1), true)));
    assert!(states.start_connect(&ns, peer(1), SyncReason::Resync, at(3)));
    let origin = Origin::Connect(SyncReason::Resync);
    assert_eq!(states.finish(&ns, peer(1), &origin), Some((at(3), false)));
}

#[test]
fn an_accepted_sync_is_not_disturbed() {
    let mut states = NamespaceStates::new();
    let ns = namespace(1);
    states.insert(ns);
    assert_eq!(states.accept_request(&peer(2), &ns, peer(1), at(1)), AcceptOutcome::Allow);
    assert_eq!(states.accept_request(&peer(2), &ns, peer(1), at(2)), TIE);
    assert!(!states.start_connect(&ns, peer(1), SyncReason::DirectJoin, at(3)));
    assert_eq!(states.finish(&ns, peer(1), &Origin::Accept), Some((at(1), false)));
}

#[test]
fn of_two_dials_the_greater_side_accepts() {
    let (greater, smaller) = greater_and_smaller();
    let ns = namespace(1);
    for (me, other, outcome) in [
        (greater, smaller, AcceptOutcome::Allow),
        (smaller, greater, TIE),
    ] {
        let mut states = NamespaceStates::new();
        states.insert(ns);
        assert!(states.start_connect(&ns, other, SyncReason::DirectJoin, at(1)));
        assert_eq!(states.accept_request(&me, &ns, other, at(2)), outcome);
    }
}

#[test]
fn the_end_of_a_dial_that_was_taken_over_is_ignored() {
    let (me, other) = greater_and_smaller();
    let ns = namespace(1);
    let mut states = NamespaceStates::new();
    states.insert(ns);
    assert!(states.start_connect(&ns, other, SyncReason::NewNeighbor, at(1)));
    assert_eq!(states.accept_request(&me, &ns, other, at(2)), AcceptOutcome::Allow);
    assert_eq!(states.finish(&ns, other, &Origin::Connect(SyncReason::NewNeighbor)), None);
    assert_eq!(states.accept_request(&me, &ns, other, at(3)), TIE);
    assert_eq!(states.finish(&ns, other, &Origin::Accept), Some((at(2), false)));
}

#[test]
fn what_is_to_be_announced_is_announced_once() {
    let ns = namespace(1);
    let mut states = NamespaceStates::new();
    states.insert(ns);
    assert_eq!(states.may_emit_ready(&ns), Some(false));
    states.set_may_emit_ready(&ns, true);
    assert_eq!(states.may_emit_ready(&ns), Some(true));
    assert_eq!(states.may_emit_ready(&ns), Some(false));
    assert!(states.remove(&ns));
    assert_eq!(states.may_emit_ready(&ns), None);
}

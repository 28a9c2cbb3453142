use live_sync::ids::{NamespaceId, PublicKey};
use live_sync::messages::{
    fmt_accept_namespace, fmt_accept_peer, AcceptError, ConnectError, EndpointAddr, Event,
    SyncDetails, SyncEvent, SyncFinished, SyncOutcome,
};
use live_sync::state::{AbortReason, Origin, SyncReason};
use n0_future::time::SystemTime;

fn finished(num_recv: usize, num_sent: usize) -> SyncFinished {
    SyncFinished {
        namespace: NamespaceId::from_bytes([0xab; 32]),
        peer: PublicKey::from_bytes(&[1; 32]).unwrap(),
        outcome: SyncOutcome { num_recv, num_sent, heads_received: None },
    }
}

#[test]
fn details_count_entries() {
    let details = SyncDetails::from(&finished(3, 5));
    assert_eq!(details, SyncDetails { entries_received: 3, entries_sent: 5 });
}

#[test]
fn a_sync_that_succeeded_names_its_peer_and_document() {
    let res: Result<SyncFinished, AcceptError> = Ok(finished(0, 0));
    assert_eq!(fmt_accept_peer(&res), "0101010101");
    assert_eq!(fmt_accept_namespace(&res), "ababababab");
}

#[test]
fn a_request_that_was_turned_down_names_its_peer_and_document() {
    let res = Err(AcceptError::Abort {
        peer: PublicKey::from_bytes(&[1; 32]).unwrap(),
        namespace: NamespaceId::from_bytes([0x0c; 32]),
        reason: AbortReason::NotFound,
        message: "not found".to_string(),
    });
    assert_eq!(fmt_accept_peer(&res), "0101010101");
    assert_eq!(fmt_accept_namespace(&res), "0c0c0c0c0c");
}

#[test]
fn what_is_not_known_is_unknown() {
    let res = Err(AcceptError::Failed {
        peer: None,
        namespace: None,
        message: "hung up".to_string(),
    });
    assert_eq!(fmt_accept_peer(&res), "unknown");
    assert_eq!(fmt_accept_namespace(&res), "unknown");

    let res = Err(AcceptError::Failed {
        peer: Some(PublicKey::from_bytes(&[1; 32]).unwrap()),
        namespace: None,
        message: "hung up".to_string(),
    });
    assert_eq!(fmt_accept_peer(&res), "0101010101");
    assert_eq!(fmt_accept_namespace(&res), "unknown");
}

#[test]
fn errors_have_words() {
    let abort = ConnectError::RemoteAbort {
        reason: AbortReason::AlreadySyncing,
        message: "busy".to_string(),
    };
    assert_eq!(abort.into_message(), "busy");
    let failed = ConnectError::Failed { message: "no route".to_string() };
    assert_eq!(failed.into_message(), "no route");
    let failed = AcceptError::Failed {
        peer: None,
        namespace: None,
        message: "hung up".to_string(),
    };
    assert_eq!(failed.peer(), None);
    assert_eq!(failed.namespace(), None);
    assert_eq!(failed.into_message(), "hung up");
}

#[test]
fn a_peer_without_addresses_is_empty() {
    let id = PublicKey::from_bytes(&[1; 32]).unwrap();
    let mut addr = EndpointAddr::new(id);
    assert_eq!(addr.id, id);
    assert!(addr.is_empty());
    addr.addrs.push(iroh::TransportAddr::Ip("192.0.2.1:9999".parse().unwrap()));
    assert!(!addr.is_empty());
}

#[test]
fn a_copy_of_an_event_is_the_same() {
    let event = Event::SyncFinished(SyncEvent {
        peer: PublicKey::from_bytes(&[1; 32]).unwrap(),
        origin: Origin::Connect(SyncReason::NewNeighbor),
        finished: SystemTime::UNIX_EPOCH,
        started: SystemTime::UNIX_EPOCH,
        result: Err("failed".to_string()),
    });
    assert_eq!(event.clone(), event);
}

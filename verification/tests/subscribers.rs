use live_sync::ids::{NamespaceId, PublicKey};
use live_sync::messages::Event;
use live_sync::subscribers::{Subscribers, SubscribersMap};

fn send(senders: &[async_channel::Sender<Event>], event: &Event) -> Vec<bool> {
    senders
        .iter()
        .map(|sender| sender.try_send(event.clone()).is_ok())
        .collect()
}

#[test]
fn test_sync_remove() {
    let pk = PublicKey::from_bytes(&[1; 32]).unwrap();
    let (a_tx, a_rx) = async_channel::unbounded();
    let (b_tx, b_rx) = async_channel::unbounded();
    let mut subscribers = Subscribers::new();
    subscribers.subscribe(a_tx);
    subscribers.subscribe(b_tx);
    drop(a_rx);
    drop(b_rx);
    let delivered = send(subscribers.senders(), &Event::NeighborUp(pk));
    assert_eq!(delivered, vec![false, false]);
    assert!(!subscribers.settle(&delivered));
    assert!(subscribers.senders().is_empty());
}

#[test]
fn subscribers_that_are_left_keep_their_order() {
    let (a_tx, a_rx) = async_channel::unbounded();
    let (b_tx, b_rx) = async_channel::unbounded();
    let (c_tx, c_rx) = async_channel::unbounded();
    let mut subscribers = Subscribers::new();
    subscribers.subscribe(a_tx);
    subscribers.subscribe(b_tx);
    subscribers.subscribe(c_tx);
    drop(b_rx);
    let delivered = send(subscribers.senders(), &Event::PendingContentReady);
    assert_eq!(delivered, vec![true, false, true]);
    assert!(subscribers.settle(&delivered));
    assert_eq!(subscribers.senders().len(), 2);
    assert_eq!(a_rx.try_recv().unwrap(), Event::PendingContentReady);
    assert_eq!(c_rx.try_recv().unwrap(), Event::PendingContentReady);

    let pk = PublicKey::from_bytes(&[1; 32]).unwrap();
    subscribers.senders()[1].try_send(Event::NeighborDown(pk)).unwrap();
    assert!(a_rx.is_empty());
    assert_eq!(c_rx.try_recv().unwrap(), Event::NeighborDown(pk));
}

#[test]
fn a_document_without_subscribers_is_forgotten() {
    let ns = NamespaceId::from_bytes([1; 32]);
    let other = NamespaceId::from_bytes([2; 32]);
    let mut map = SubscribersMap::new();
    assert!(map.senders(&ns).is_none());
    assert!(!map.settle(&ns, &vec![]));

    let (a_tx, a_rx) = async_channel::unbounded();
    let (b_tx, _b_rx) = async_channel::unbounded();
    map.subscribe(ns, a_tx);
    map.subscribe(other, b_tx);
    assert_eq!(map.senders(&ns).unwrap().len(), 1);
    drop(a_rx);
    let delivered = send(map.senders(&ns).unwrap(), &Event::PendingContentReady);
    assert!(map.settle(&ns, &delivered));
    assert!(map.senders(&ns).is_none());
    assert!(!map.settle(&ns, &vec![]));

    assert_eq!(map.senders(&other).unwrap().len(), 1);
    map.remove(&other);
    assert!(map.senders(&other).is_none());
}

#[test]
fn all_subscribers_can_be_forgotten() {
    let mut map = SubscribersMap::new();
    for byte in 0..3u8 {
        let (tx, _rx) = async_channel::unbounded();
        map.subscribe(NamespaceId::from_bytes([byte; 32]), tx);
    }
    map.clear();
    for byte in 0..3u8 {
        assert!(map.senders(&NamespaceId::from_bytes([byte; 32])).is_none());
    }
}

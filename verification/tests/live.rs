use live_sync::ids::{ContentHash, NamespaceId, PublicKey};
use live_sync::live::{
    accept_reply, batch_statuses, join_peers, status_hashes_one_by_one, with_stored_peers, Action,
    ConnectEnd, DownloadEnd, Input, LiveActor, LiveError, News, Next, StatusQuery, Step,
    StoredPeers, MAX_REPLICA_EVENT_BATCH,
};
use live_sync::messages::{
    AcceptError, BlobStatus, ConnectError, ContentStatus, EndpointAddr, Event, Op, ReplicaEvent,
    SignedEntry, SyncDetails, SyncEvent, SyncFinished, SyncOutcome, SyncReport, ToLiveActor,
};
use live_sync::sorted::comes_before;
use live_sync::state::{AbortReason, AcceptOutcome, Origin, SyncReason};
use n0_future::time::{Duration, SystemTime};

fn hash(content: &[u8]) -> ContentHash {
    ContentHash::from_bytes(*iroh_blobs::Hash::new(content).as_bytes())
}

fn namespace(byte: u8) -> NamespaceId {
    NamespaceId::from_bytes([byte; 32])
}

fn peer(byte: u8) -> PublicKey {
    let key = iroh::SecretKey::from_bytes(&[byte; 32]).public();
    PublicKey::from_bytes(key.as_bytes()).unwrap()
}

fn some_invalid_key() -> [u8; 32] {
    (0..=255u8)
        .map(|byte| [byte; 32])
        .find(|bytes| iroh::PublicKey::from_bytes(bytes).is_err())
        .unwrap()
}

fn at(seconds: u64) -> SystemTime {
    SystemTime::UNIX_EPOCH + Duration::from_secs(seconds)
}

fn entry(content: &[u8]) -> SignedEntry {
    SignedEntry { content_hash: hash(content), encoded: content.to_vec() }
}

fn addr(id: PublicKey, known: bool) -> EndpointAddr {
    let mut addr = EndpointAddr::new(id);
    if known {
        addr.addrs.push(iroh::TransportAddr::Ip("192.0.2.1:9999".parse().unwrap()));
    }
    addr
}

/// An engine that syncs the given document.
fn engine(me: PublicKey, ns: NamespaceId) -> LiveActor {
    let mut actor = LiveActor::new(me);
    let step = actor.on_input_at(
        Input::Opened { namespace: ns, peers: vec![], opened: true },
        at(0),
    );
    assert!(step.actions.is_empty());
    assert!(matches!(step.next, Next::ReadSyncPeers { .. }));
    actor
}

fn message(actor: &mut LiveActor, msg: ToLiveActor, now: u64) -> Step {
    actor.on_input_at(Input::Message(Some(msg)), at(now))
}

fn connect_ended(
    actor: &mut LiveActor,
    ns: NamespaceId,
    with: PublicKey,
    reason: SyncReason,
    result: Result<SyncFinished, ConnectError>,
    now: u64,
) -> Step {
    let end = ConnectEnd { namespace: ns, peer: with, reason, result };
    actor.on_input_at(Input::SyncConnect(Some(end)), at(now))
}

fn finished(
    ns: NamespaceId,
    with: PublicKey,
    num_recv: usize,
    heads_received: Option<Vec<u8>>,
) -> SyncFinished {
    SyncFinished {
        namespace: ns,
        peer: with,
        outcome: SyncOutcome { num_recv, num_sent: 7, heads_received },
    }
}

fn already_syncing() -> ConnectError {
    ConnectError::RemoteAbort {
        reason: AbortReason::AlreadySyncing,
        message: "already syncing".to_string(),
    }
}

fn remote_insert(ns: NamespaceId, content: &[u8], from: [u8; 32], complete: bool) -> ReplicaEvent {
    ReplicaEvent::RemoteInsert {
        namespace: ns,
        entry: entry(content),
        from,
        should_download: true,
        remote_content_status: if complete {
            ContentStatus::Complete
        } else {
            ContentStatus::Missing
        },
    }
}

fn query(step: Step) -> StatusQuery {
    match step.next {
        Next::QueryStatuses(query) => query,
        next => panic!("expected a question, got {next:?}"),
    }
}

/// Handles one change as a whole batch, up to the question that it leads to.
fn batch_of_one(actor: &mut LiveActor, event: ReplicaEvent) -> Step {
    let step = actor.on_input_at(Input::ReplicaEvent(Some(event)), at(1));
    assert!(matches!(step.next, Next::NextInBatch { handled: 1 }));
    actor.on_input_at(Input::BatchEvent { handled: 1, event: None }, at(1))
}

/// Gets the content of one entry queued for download.
fn start_download(actor: &mut LiveActor, ns: NamespaceId, content: &[u8], from: PublicKey) {
    let step = batch_of_one(actor, remote_insert(ns, content, *from.as_bytes(), true));
    assert!(step.actions.is_empty());
    let query = query(step);
    assert_eq!(query.hashes(), vec![hash(content)]);
    let step = actor.on_input_at(
        Input::Statuses { query, statuses: vec![BlobStatus::NotFound] },
        at(1),
    );
    assert_eq!(
        step.actions,
        vec![Action::Download { namespace: ns, hash: hash(content) }]
    );
}

fn download_ended(actor: &mut LiveActor, content: &[u8], success: bool) -> Vec<Action> {
    let end = DownloadEnd { hash: hash(content), success };
    let step = actor.on_input_at(Input::Download(Some(end)), at(2));
    assert!(matches!(step.next, Next::Nothing));
    step.actions
}

fn content_ready(ns: NamespaceId, content: &[u8]) -> Vec<Action> {
    vec![
        Action::Emit { namespace: ns, event: Event::ContentReady { hash: hash(content) } },
        Action::BroadcastNeighbors { namespace: ns, op: Op::ContentReady(hash(content)) },
    ]
}

fn pending_ready(ns: NamespaceId) -> Action {
    Action::Emit { namespace: ns, event: Event::PendingContentReady }
}

#[test]
fn a_document_is_opened_before_its_peers_are_joined() {
    let ns = namespace(1);
    let mut actor = LiveActor::new(peer(1));
    let peers = vec![addr(peer(2), true)];
    let step = message(&mut actor, ToLiveActor::StartSync { namespace: ns, peers }, 1);
    assert!(step.actions.is_empty());
    let peers = match step.next {
        Next::OpenReplica { namespace, peers } => {
            assert_eq!(namespace, ns);
            peers
        }
        next => panic!("unexpected {next:?}"),
    };

    let step = actor.on_input_at(Input::Opened { namespace: ns, peers, opened: true }, at(1));
    let peers = match step.next {
        Next::ReadSyncPeers { namespace, peers } => {
            assert_eq!(namespace, ns);
            peers
        }
        next => panic!("unexpected {next:?}"),
    };

    let keys = vec![*peer(3).as_bytes(), some_invalid_key(), *peer(2).as_bytes()];
    let step = actor.on_input_at(
        Input::SyncPeers { namespace: ns, peers, stored: StoredPeers::Known(keys) },
        at(1),
    );
    let plan = match step.next {
        Next::JoinSwarm { namespace, plan } => {
            assert_eq!(namespace, ns);
            plan
        }
        next => panic!("unexpected {next:?}"),
    };
    assert_eq!(plan.addresses, vec![addr(peer(2), true)]);
    assert_eq!(plan.peer_ids, vec![peer(2), peer(3), peer(2)]);

    let step = actor.on_input_at(
        Input::Joined { namespace: ns, peer_ids: plan.peer_ids, joined: true },
        at(1),
    );
    let reason = SyncReason::DirectJoin;
    assert_eq!(
        step.actions,
        vec![
            Action::Connect { namespace: ns, peer: peer(2), reason },
            Action::Connect { namespace: ns, peer: peer(3), reason },
        ]
    );

    // a document that is synced already is not opened again
    let step = message(&mut actor, ToLiveActor::StartSync { namespace: ns, peers: vec![] }, 2);
    assert!(matches!(step.next, Next::ReadSyncPeers { .. }));
}

#[test]
fn what_cannot_be_opened_is_not_synced() {
    let ns = namespace(1);
    let mut actor = LiveActor::new(peer(1));
    let input = Input::Opened { namespace: ns, peers: vec![], opened: false };
    let step = actor.on_input_at(input, at(1));
    assert!(matches!(step.next, Next::Nothing));
    let step = message(&mut actor, ToLiveActor::StartSync { namespace: ns, peers: vec![] }, 1);
    assert!(matches!(step.next, Next::OpenReplica { .. }));
    let input = Input::Joined { namespace: ns, peer_ids: vec![peer(2)], joined: false };
    assert!(actor.on_input_at(input, at(1)).actions.is_empty());
}

#[test]
fn stored_peers_are_of_use_but_not_needed() {
    let given = with_stored_peers(vec![addr(peer(1), true)], StoredPeers::Absent);
    assert_eq!(given, vec![addr(peer(1), true)]);
    let given = with_stored_peers(vec![addr(peer(1), true)], StoredPeers::Unreadable);
    assert_eq!(given, vec![addr(peer(1), true)]);
    let stored = StoredPeers::Known(vec![some_invalid_key(), *peer(2).as_bytes()]);
    let all = with_stored_peers(vec![addr(peer(1), true)], stored);
    assert_eq!(all, vec![addr(peer(1), true), addr(peer(2), false)]);
}

#[test]
fn peers_without_addresses_are_joined_with_all_the_same() {
    let peers = vec![addr(peer(1), false), addr(peer(2), true), addr(peer(3), false)];
    let plan = join_peers(peers);
    assert_eq!(plan.addresses, vec![addr(peer(2), true)]);
    assert_eq!(plan.peer_ids, vec![peer(1), peer(2), peer(3)]);
    assert!(join_peers(vec![]).peer_ids.is_empty());
}

#[test]
fn a_document_that_is_left_is_closed() {
    let ns = namespace(1);
    let mut actor = engine(peer(1), ns);
    let (tx, rx) = async_channel::unbounded();
    message(&mut actor, ToLiveActor::Subscribe { namespace: ns, sender: tx }, 1);

    let step = message(
        &mut actor,
        ToLiveActor::Leave { namespace: ns, kill_subscribers: true },
        1,
    );
    match step.next {
        Next::CloseReplica { namespace, kill_subscribers } => {
            assert_eq!(namespace, ns);
            assert!(kill_subscribers);
        }
        next => panic!("unexpected {next:?}"),
    }
    assert!(actor.senders(&ns).is_some());
    let input = Input::Closed { namespace: ns, kill_subscribers: true, closed: true };
    let step = actor.on_input_at(input, at(1));
    assert_eq!(step.actions, vec![Action::QuitGossip { namespace: ns }]);
    assert!(actor.senders(&ns).is_none());
    assert!(rx.is_closed());

    // nothing is broadcast for it any more
    let event = ReplicaEvent::LocalInsert { namespace: ns, entry: entry(b"a") };
    let step = actor.on_input_at(Input::ReplicaEvent(Some(event)), at(2));
    assert!(step.actions.is_empty());
    let report = SyncReport { namespace: ns, heads: vec![] };
    let step = message(&mut actor, ToLiveActor::IncomingSyncReport { from: peer(2), report }, 2);
    assert!(matches!(step.next, Next::Nothing));
}

#[test]
fn a_document_that_could_not_be_closed_keeps_its_subscribers() {
    let ns = namespace(1);
    let mut actor = engine(peer(1), ns);
    let (tx, _rx) = async_channel::unbounded();
    message(&mut actor, ToLiveActor::Subscribe { namespace: ns, sender: tx }, 1);
    message(&mut actor, ToLiveActor::Leave { namespace: ns, kill_subscribers: true }, 1);
    let input = Input::Closed { namespace: ns, kill_subscribers: true, closed: false };
    assert!(actor.on_input_at(input, at(1)).actions.is_empty());
    assert!(actor.senders(&ns).is_some());

    // now that it is not synced there is nothing to close
    let leave = ToLiveActor::Leave { namespace: ns, kill_subscribers: true };
    assert!(matches!(message(&mut actor, leave, 2).next, Next::Nothing));
    assert!(actor.senders(&ns).is_none());
}

#[test]
fn neighbors_are_announced_and_dialed() {
    let ns = namespace(1);
    let mut actor = engine(peer(1), ns);
    let step = message(&mut actor, ToLiveActor::NeighborUp { namespace: ns, peer: peer(2) }, 1);
    assert_eq!(
        step.actions,
        vec![
            Action::Connect { namespace: ns, peer: peer(2), reason: SyncReason::NewNeighbor },
            Action::Emit { namespace: ns, event: Event::NeighborUp(peer(2)) },
        ]
    );
    let step = message(&mut actor, ToLiveActor::NeighborUp { namespace: ns, peer: peer(2) }, 2);
    assert_eq!(
        step.actions,
        vec![Action::Emit { namespace: ns, event: Event::NeighborUp(peer(2)) }]
    );
    let step = message(&mut actor, ToLiveActor::NeighborDown { namespace: ns, peer: peer(2) }, 3);
    assert_eq!(
        step.actions,
        vec![Action::Emit { namespace: ns, event: Event::NeighborDown(peer(2)) }]
    );
}

#[test]
fn shutdown_stops_the_engine() {
    let ns = namespace(1);
    let mut actor = engine(peer(1), ns);
    let (tx, rx) = async_channel::unbounded();
    message(&mut actor, ToLiveActor::Subscribe { namespace: ns, sender: tx }, 1);
    let step = message(&mut actor, ToLiveActor::Shutdown, 1);
    assert!(matches!(step.next, Next::Stop));
    actor.shutdown();
    assert!(actor.senders(&ns).is_none());
    assert!(rx.is_closed());
}

#[test]
fn a_connection_is_served() {
    let mut actor = LiveActor::new(peer(1));
    let step = message(&mut actor, ToLiveActor::HandleConnection, 1);
    assert!(step.actions.is_empty());
    assert!(matches!(step.next, Next::ServeConnection));
}

#[test]
fn the_engine_fails_when_it_hears_of_nothing_any_more() {
    let mut actor = LiveActor::new(peer(1));
    for (input, expected) in [
        (Input::Message(None), LiveError::InboxClosed),
        (Input::ReplicaEvent(None), LiveError::ReplicaEventsClosed),
        (Input::SyncConnect(None), LiveError::ConnectTaskFailed),
        (Input::SyncAccept(None), LiveError::AcceptTaskFailed),
        (Input::Download(None), LiveError::DownloadTaskFailed),
    ] {
        match actor.on_input(input).next {
            Next::Fail(error) => assert_eq!(error, expected),
            next => panic!("unexpected {next:?}"),
        }
    }
}

#[test]
fn requests_are_answered() {
    let ns = namespace(1);
    let mut actor = engine(peer(1), ns);
    let request = |ns| ToLiveActor::AcceptSyncRequest { namespace: ns, peer: peer(2) };
    let mut ask = |ns| match message(&mut actor, request(ns), 1).next {
        Next::Answer(outcome) => outcome,
        next => panic!("unexpected {next:?}"),
    };
    assert_eq!(ask(namespace(9)), AcceptOutcome::Reject(AbortReason::NotFound));
    assert_eq!(ask(ns), AcceptOutcome::Allow);
    assert_eq!(ask(ns), AcceptOutcome::Reject(AbortReason::AlreadySyncing));
    assert_eq!(
        actor.accept_sync_request(ns, peer(3), at(1)),
        AcceptOutcome::Allow
    );
}

#[test]
fn a_request_without_an_answer_is_turned_down() {
    assert_eq!(accept_reply(Some(AcceptOutcome::Allow)), AcceptOutcome::Allow);
    assert_eq!(
        accept_reply(None),
        AcceptOutcome::Reject(AbortReason::InternalServerError)
    );
}

#[test]
fn a_rejected_dial_does_not_block_later_syncs() {
    // both sides dial; the greater one's request is turned down, and the smaller one never gets
    // through
    let (a, b) = (peer(1), peer(2));
    let (greater, smaller) = if comes_before(a.as_bytes(), b.as_bytes()) { (b, a) } else { (a, b) };
    let ns = namespace(1);
    let mut winner = engine(smaller, ns);
    let mut rejected = engine(greater, ns);
    let join = |with| Input::Joined { namespace: ns, peer_ids: vec![with], joined: true };
    let dial = |with| Action::Connect { namespace: ns, peer: with, reason: SyncReason::DirectJoin };

    assert_eq!(winner.on_input_at(join(greater), at(1)).actions, vec![dial(greater)]);
    assert_eq!(rejected.on_input_at(join(smaller), at(2)).actions, vec![dial(smaller)]);
    assert_eq!(
        winner.accept_sync_request(ns, greater, at(3)),
        AcceptOutcome::Reject(AbortReason::AlreadySyncing)
    );
    let reason = SyncReason::DirectJoin;
    let step =
        connect_ended(&mut rejected, ns, smaller, reason, Err(already_syncing()), 4);
    assert_eq!(
        step.actions,
        vec![
            Action::Emit {
                namespace: ns,
                event: Event::SyncFinished(SyncEvent {
                    peer: smaller,
                    origin: Origin::Connect(reason),
                    finished: at(4),
                    started: at(2),
                    result: Err("already syncing".to_string()),
                }),
            },
            pending_ready(ns),
        ]
    );

    // the winner's own dial times out
    let timeout = ConnectError::Failed { message: "timed out".to_string() };
    connect_ended(&mut winner, ns, greater, reason, Err(timeout), 5);

    // the next attempt runs, and succeeds
    assert_eq!(rejected.on_input_at(join(smaller), at(6)).actions, vec![dial(smaller)]);
    assert_eq!(winner.accept_sync_request(ns, greater, at(7)), AcceptOutcome::Allow);
    let done = finished(ns, smaller, 0, None);
    let step = connect_ended(&mut rejected, ns, smaller, reason, Ok(done), 8);
    assert_eq!(
        step.actions[1],
        Action::Emit {
            namespace: ns,
            event: Event::SyncFinished(SyncEvent {
                peer: smaller,
                origin: Origin::Connect(reason),
                finished: at(8),
                started: at(6),
                result: Ok(SyncDetails { entries_received: 0, entries_sent: 7 }),
            }),
        }
    );
}

#[test]
fn the_end_of_a_dial_leaves_the_request_that_took_over_alone() {
    let (a, b) = (peer(1), peer(2));
    let (me, other) = if comes_before(a.as_bytes(), b.as_bytes()) { (b, a) } else { (a, b) };
    let ns = namespace(1);
    let mut actor = engine(me, ns);
    message(&mut actor, ToLiveActor::NeighborUp { namespace: ns, peer: other }, 1);
    assert_eq!(actor.accept_sync_request(ns, other, at(2)), AcceptOutcome::Allow);
    let reason = SyncReason::NewNeighbor;
    let step = connect_ended(&mut actor, ns, other, reason, Err(already_syncing()), 3);
    assert!(step.actions.is_empty());
    assert_eq!(
        actor.accept_sync_request(ns, other, at(4)),
        AcceptOutcome::Reject(AbortReason::AlreadySyncing)
    );
    let done = finished(ns, other, 0, None);
    let step = actor.on_input_at(Input::SyncAccept(Some(Ok(done))), at(5));
    assert_eq!(
        step.actions,
        vec![
            Action::RegisterUsefulPeer { namespace: ns, peer: other },
            Action::Emit {
                namespace: ns,
                event: Event::SyncFinished(SyncEvent {
                    peer: other,
                    origin: Origin::Accept,
                    finished: at(5),
                    started: at(2),
                    result: Ok(SyncDetails { entries_received: 0, entries_sent: 7 }),
                }),
            },
            pending_ready(ns),
        ]
    );
}

#[test]
fn an_accepted_sync_that_fails_frees_the_peer_if_it_is_known() {
    let ns = namespace(1);
    let mut actor = engine(peer(1), ns);
    assert_eq!(actor.accept_sync_request(ns, peer(2), at(1)), AcceptOutcome::Allow);

    let aborted = AcceptError::Abort {
        peer: peer(2),
        namespace: ns,
        reason: AbortReason::AlreadySyncing,
        message: "already syncing".to_string(),
    };
    let step = actor.on_input_at(Input::SyncAccept(Some(Err(aborted))), at(2));
    assert!(step.actions.is_empty());
    let failed = AcceptError::Failed {
        peer: Some(peer(2)),
        namespace: None,
        message: "hung up".to_string(),
    };
    let step = actor.on_input_at(Input::SyncAccept(Some(Err(failed))), at(2));
    assert!(step.actions.is_empty());
    assert_eq!(
        actor.accept_sync_request(ns, peer(2), at(3)),
        AcceptOutcome::Reject(AbortReason::AlreadySyncing)
    );

    let failed = AcceptError::Failed {
        peer: Some(peer(2)),
        namespace: Some(ns),
        message: "hung up".to_string(),
    };
    let step = actor.on_input_at(Input::SyncAccept(Some(Err(failed))), at(4));
    assert_eq!(step.actions.len(), 2);
    assert_eq!(step.actions[1], pending_ready(ns));
    assert_eq!(actor.accept_sync_request(ns, peer(2), at(5)), AcceptOutcome::Allow);
}

#[test]
fn received_entries_are_reported_to_the_neighbors() {
    let ns = namespace(1);
    let report = |heads| Action::BroadcastNeighbors {
        namespace: ns,
        op: Op::SyncReport(SyncReport { namespace: ns, heads }),
    };
    for (num_recv, heads, reported) in [
        (2, Some(vec![1, 2, 3]), true),
        (0, Some(vec![1, 2, 3]), false),
        (2, None, false),
    ] {
        let mut actor = engine(peer(1), ns);
        message(&mut actor, ToLiveActor::NeighborUp { namespace: ns, peer: peer(2) }, 1);
        let done = finished(ns, peer(2), num_recv, heads);
        let reason = SyncReason::NewNeighbor;
        let step = connect_ended(&mut actor, ns, peer(2), reason, Ok(done), 2);
        assert_eq!(
            step.actions[0],
            Action::RegisterUsefulPeer { namespace: ns, peer: peer(2) }
        );
        assert_eq!(step.actions.contains(&report(vec![1, 2, 3])), reported);
    }
}

#[test]
fn news_during_a_sync_lead_to_another_one() {
    let ns = namespace(1);
    let mut actor = engine(peer(1), ns);
    let report = SyncReport { namespace: ns, heads: vec![1] };
    let step = message(
        &mut actor,
        ToLiveActor::IncomingSyncReport { from: peer(2), report: report.clone() },
        1,
    );
    match step.next {
        Next::CheckNews { from, report: asked } => {
            assert_eq!(from, peer(2));
            assert_eq!(asked, report);
        }
        next => panic!("unexpected {next:?}"),
    }
    let news = |news| Input::News { namespace: ns, from: peer(2), news };
    assert!(actor.on_input_at(news(News::Nothing), at(1)).actions.is_empty());
    assert!(actor.on_input_at(news(News::Unknown), at(1)).actions.is_empty());
    let reason = SyncReason::SyncReport;
    assert_eq!(
        actor.on_input_at(news(News::Updated), at(1)).actions,
        vec![Action::Connect { namespace: ns, peer: peer(2), reason }]
    );
    assert!(actor.on_input_at(news(News::Updated), at(2)).actions.is_empty());

    let failed = ConnectError::Failed { message: "no route".to_string() };
    let step = connect_ended(&mut actor, ns, peer(2), reason, Err(failed), 3);
    let resync = Action::Connect { namespace: ns, peer: peer(2), reason: SyncReason::Resync };
    assert_eq!(step.actions.len(), 3);
    assert_eq!(step.actions[1], pending_ready(ns));
    assert_eq!(step.actions[2], resync);
    let done = finished(ns, peer(2), 0, None);
    let step = connect_ended(&mut actor, ns, peer(2), SyncReason::Resync, Ok(done), 4);
    assert!(!step.actions.contains(&resync));
}

#[test]
fn local_entries_are_broadcast() {
    let ns = namespace(1);
    let mut actor = engine(peer(1), ns);
    let event = ReplicaEvent::LocalInsert { namespace: ns, entry: entry(b"a") };
    let step = actor.on_input_at(Input::ReplicaEvent(Some(event)), at(1));
    assert_eq!(
        step.actions,
        vec![Action::Broadcast { namespace: ns, op: Op::Put(entry(b"a")) }]
    );
    assert!(matches!(step.next, Next::NextInBatch { handled: 1 }));
    let step = actor.on_input_at(Input::BatchEvent { handled: 1, event: None }, at(1));
    assert!(step.actions.is_empty());
    assert!(matches!(step.next, Next::Nothing));
}

#[test]
fn an_entry_from_nobody_is_refused() {
    let ns = namespace(1);
    let mut actor = engine(peer(1), ns);
    let event = remote_insert(ns, b"a", some_invalid_key(), true);
    let step = actor.on_input_at(Input::ReplicaEvent(Some(event)), at(1));
    assert_eq!(step.actions.len(), 1);
    assert!(matches!(step.actions[0], Action::ReportRefused { .. }));
    let step = actor.on_input_at(Input::BatchEvent { handled: 1, event: None }, at(1));
    assert!(matches!(step.next, Next::Nothing));
}

#[test]
fn entries_whose_content_is_not_wanted_are_ignored() {
    let ns = namespace(1);
    let mut actor = engine(peer(1), ns);
    let event = ReplicaEvent::RemoteInsert {
        namespace: ns,
        entry: entry(b"a"),
        from: some_invalid_key(),
        should_download: false,
        remote_content_status: ContentStatus::Complete,
    };
    let step = batch_of_one(&mut actor, event);
    assert!(step.actions.is_empty());
    assert!(matches!(step.next, Next::Nothing));
}

#[test]
fn a_batch_has_an_end() {
    let ns = namespace(1);
    let mut actor = engine(peer(1), ns);
    let mut asked = 0;
    for handled in 0..MAX_REPLICA_EVENT_BATCH {
        assert_eq!(asked, handled);
        let event = Some(remote_insert(ns, b"a", *peer(2).as_bytes(), true));
        let step = if handled == 0 {
            actor.on_input_at(Input::ReplicaEvent(event), at(1))
        } else {
            actor.on_input_at(Input::BatchEvent { handled, event }, at(1))
        };
        asked = match step.next {
            Next::NextInBatch { handled } => handled,
            next => panic!("unexpected {next:?}"),
        };
    }
    assert_eq!(asked, MAX_REPLICA_EVENT_BATCH);
    let event = Some(remote_insert(ns, b"b", *peer(2).as_bytes(), true));
    let input = Input::BatchEvent { handled: MAX_REPLICA_EVENT_BATCH, event };
    let query = query(actor.on_input_at(input, at(1)));
    let mut hashes = query.hashes();
    assert_eq!(hashes.len(), 2);
    hashes.retain(|found| *found != hash(b"a") && *found != hash(b"b"));
    assert!(hashes.is_empty());
}

#[test]
fn content_is_downloaded_once_for_all_documents() {
    let (n1, n2) = (namespace(1), namespace(2));
    let mut actor = engine(peer(1), n1);
    actor.on_input_at(Input::Opened { namespace: n2, peers: vec![], opened: true }, at(0));
    start_download(&mut actor, n1, b"a", peer(2));
    assert_eq!(actor.find_providers(&hash(b"a")), vec![peer(2)]);

    // a second document waits for the same download
    let step = batch_of_one(&mut actor, remote_insert(n2, b"a", *peer(3).as_bytes(), true));
    let input = Input::Statuses {
        query: query(step),
        statuses: vec![BlobStatus::Partial { size: None }],
    };
    assert!(actor.on_input_at(input, at(1)).actions.is_empty());
    let providers = actor.find_providers(&hash(b"a"));
    assert_eq!(providers.len(), 2);
    assert!(providers.contains(&peer(2)) && providers.contains(&peer(3)));

    let actions = download_ended(&mut actor, b"a", true);
    assert_eq!(actions.len(), 4);
    for action in content_ready(n1, b"a").into_iter().chain(content_ready(n2, b"a")) {
        assert!(actions.contains(&action));
    }
    assert!(download_ended(&mut actor, b"a", true).is_empty());
}

/// A document that misses content which is being downloaded for another one joins the download.
fn join_download() -> (LiveActor, NamespaceId, NamespaceId) {
    let (n1, n2) = (namespace(1), namespace(2));
    let mut actor = engine(peer(1), n1);
    actor.on_input_at(Input::Opened { namespace: n2, peers: vec![], opened: true }, at(0));
    batch_of_one(&mut actor, remote_insert(n2, b"a", *peer(3).as_bytes(), false));
    start_download(&mut actor, n1, b"a", peer(2));
    let offer = ToLiveActor::NeighborContentReady {
        namespace: n2,
        node: peer(3),
        hash: hash(b"a"),
    };
    let asked = query(message(&mut actor, offer, 1));
    let input = Input::Statuses { query: asked, statuses: vec![BlobStatus::NotFound] };
    assert!(actor.on_input_at(input, at(1)).actions.is_empty());
    (actor, n1, n2)
}

#[test]
fn content_is_not_missing_once_its_download_is_joined() {
    let (mut actor, n1, n2) = join_download();

    // the content is stored by now, and offered before the end of the download is heard of
    let offer = ToLiveActor::NeighborContentReady {
        namespace: n2,
        node: peer(3),
        hash: hash(b"a"),
    };
    let asked = query(message(&mut actor, offer, 2));
    let statuses = vec![BlobStatus::Complete { size: 1 }];
    let step = actor.on_input_at(Input::Statuses { query: asked, statuses }, at(2));
    assert!(step.actions.is_empty());

    // so each document is told once
    let actions = download_ended(&mut actor, b"a", true);
    assert_eq!(actions.len(), 4);
    for action in content_ready(n1, b"a").into_iter().chain(content_ready(n2, b"a")) {
        assert!(actions.contains(&action));
    }
}

#[test]
fn a_sync_does_not_ask_for_content_whose_download_was_joined() {
    let (mut actor, _, n2) = join_download();
    let sync = |actor: &mut LiveActor, now| {
        message(actor, ToLiveActor::NeighborUp { namespace: n2, peer: peer(4) }, now);
        let done = finished(n2, peer(4), 0, None);
        connect_ended(actor, n2, peer(4), SyncReason::NewNeighbor, Ok(done), now)
    };
    assert!(matches!(sync(&mut actor, 2).next, Next::Nothing));

    // a download that failed leaves it missing again
    assert_eq!(download_ended(&mut actor, b"a", false), vec![pending_ready(n2)]);
    assert_eq!(query(sync(&mut actor, 3)).hashes(), vec![hash(b"a")]);
}

#[test]
fn statuses_looked_up_one_by_one_lead_to_the_same_as_a_batch() {
    let ns = namespace(1);
    let replies = [Some(BlobStatus::Complete { size: 1 }), None];
    let contents: [&[u8]; 2] = [b"a", b"b"];
    let lookup = |found: &ContentHash| {
        let i = contents.iter().position(|content| hash(content) == *found).unwrap();
        replies[i]
    };
    let steps: Vec<Step> = [false, true]
        .into_iter()
        .map(|batch| {
            let mut actor = engine(peer(1), ns);
            let event = remote_insert(ns, b"a", *peer(2).as_bytes(), true);
            actor.on_input_at(Input::ReplicaEvent(Some(event)), at(1));
            let event = Some(remote_insert(ns, b"b", *peer(2).as_bytes(), true));
            actor.on_input_at(Input::BatchEvent { handled: 1, event }, at(1));
            let asked =
                query(actor.on_input_at(Input::BatchEvent { handled: 2, event: None }, at(1)));
            let found: Vec<Option<BlobStatus>> = asked.hashes().iter().map(lookup).collect();
            let full = found.iter().map(|status| status.unwrap_or(BlobStatus::NotFound)).collect();
            let reply = if batch { Some(full) } else { Some(vec![BlobStatus::NotFound]) };
            let statuses = match batch_statuses(2, reply) {
                Some(statuses) => statuses,
                None => status_hashes_one_by_one(found),
            };
            actor.on_input_at(Input::Statuses { query: asked, statuses }, at(1))
        })
        .collect();
    assert_eq!(steps[0].actions, steps[1].actions);
    assert_eq!(steps[0].actions.len(), 3);
    assert!(steps[0].actions.contains(&Action::Download { namespace: ns, hash: hash(b"b") }));
}

#[test]
fn content_that_is_stored_already_is_announced() {
    let ns = namespace(1);
    let mut actor = engine(peer(1), ns);
    let step = batch_of_one(&mut actor, remote_insert(ns, b"a", *peer(2).as_bytes(), true));
    let input = Input::Statuses {
        query: query(step),
        statuses: vec![BlobStatus::Complete { size: 1 }],
    };
    let step = actor.on_input_at(input, at(1));
    assert_eq!(step.actions, content_ready(ns, b"a"));
    assert!(actor.find_providers(&hash(b"a")).is_empty());
}

#[test]
fn an_offer_of_content_is_taken_only_where_it_is_missing() {
    let ns = namespace(1);
    let mut actor = engine(peer(1), ns);
    let offer = || ToLiveActor::NeighborContentReady {
        namespace: ns,
        node: peer(2),
        hash: hash(b"a"),
    };
    for status in [BlobStatus::NotFound, BlobStatus::Complete { size: 1 }] {
        let query = query(message(&mut actor, offer(), 1));
        let input = Input::Statuses { query, statuses: vec![status] };
        assert!(actor.on_input_at(input, at(1)).actions.is_empty());
    }

    let step = batch_of_one(&mut actor, remote_insert(ns, b"a", *peer(3).as_bytes(), false));
    assert!(matches!(step.next, Next::Nothing));
    let query = query(message(&mut actor, offer(), 2));
    let input = Input::Statuses { query, statuses: vec![BlobStatus::NotFound] };
    assert_eq!(
        actor.on_input_at(input, at(2)).actions,
        vec![Action::Download { namespace: ns, hash: hash(b"a") }]
    );
}

#[test]
fn missing_content_is_found_where_it_is_stored() {
    let ns = namespace(1);
    let mut actor = engine(peer(1), ns);
    batch_of_one(&mut actor, remote_insert(ns, b"a", *peer(3).as_bytes(), false));
    let offer = || ToLiveActor::NeighborContentReady {
        namespace: ns,
        node: peer(2),
        hash: hash(b"a"),
    };
    let asked = query(message(&mut actor, offer(), 1));
    let statuses = vec![BlobStatus::Complete { size: 1 }];
    let step = actor.on_input_at(Input::Statuses { query: asked, statuses }, at(1));
    assert_eq!(step.actions, content_ready(ns, b"a"));
    let asked = query(message(&mut actor, offer(), 2));
    let statuses = vec![BlobStatus::Complete { size: 1 }];
    let step = actor.on_input_at(Input::Statuses { query: asked, statuses }, at(2));
    assert!(step.actions.is_empty());
}

#[test]
fn content_whose_download_failed_is_asked_for_after_the_next_sync() {
    let ns = namespace(1);
    let mut actor = engine(peer(1), ns);
    start_download(&mut actor, ns, b"a", peer(2));
    assert!(download_ended(&mut actor, b"a", false).is_empty());

    message(&mut actor, ToLiveActor::NeighborUp { namespace: ns, peer: peer(3) }, 3);
    let done = finished(ns, peer(3), 0, None);
    let reason = SyncReason::NewNeighbor;
    let step = connect_ended(&mut actor, ns, peer(3), reason, Ok(done), 4);
    assert_eq!(step.actions.len(), 2);
    assert!(!step.actions.contains(&pending_ready(ns)));
    let asked = query(step);
    assert_eq!(asked.hashes(), vec![hash(b"a")]);
    let input = Input::Statuses { query: asked, statuses: vec![BlobStatus::NotFound] };
    assert_eq!(
        actor.on_input_at(input, at(4)).actions,
        vec![Action::Download { namespace: ns, hash: hash(b"a") }]
    );
    assert!(actor.find_providers(&hash(b"a")).contains(&peer(3)));

    // the end of the last download is announced, though it failed
    assert_eq!(download_ended(&mut actor, b"a", false), vec![pending_ready(ns)]);
    assert!(download_ended(&mut actor, b"a", false).is_empty());
}

#[test]
fn the_end_of_the_last_download_is_announced_after_a_sync() {
    let ns = namespace(1);
    let mut actor = engine(peer(1), ns);
    start_download(&mut actor, ns, b"a", peer(2));
    start_download(&mut actor, ns, b"b", peer(2));

    message(&mut actor, ToLiveActor::NeighborUp { namespace: ns, peer: peer(2) }, 3);
    let done = finished(ns, peer(2), 0, None);
    let reason = SyncReason::NewNeighbor;
    let step = connect_ended(&mut actor, ns, peer(2), reason, Ok(done), 4);
    assert!(!step.actions.contains(&pending_ready(ns)));

    assert_eq!(download_ended(&mut actor, b"a", true), content_ready(ns, b"a"));
    let mut expected = content_ready(ns, b"b");
    expected.push(pending_ready(ns));
    assert_eq!(download_ended(&mut actor, b"b", true), expected);

    // without another sync it is not announced again
    start_download(&mut actor, ns, b"c", peer(2));
    assert_eq!(download_ended(&mut actor, b"c", true), content_ready(ns, b"c"));
}

#[test]
fn a_failed_sync_asks_for_no_content() {
    let ns = namespace(1);
    let mut actor = engine(peer(1), ns);
    batch_of_one(&mut actor, remote_insert(ns, b"a", *peer(3).as_bytes(), false));
    message(&mut actor, ToLiveActor::NeighborUp { namespace: ns, peer: peer(2) }, 1);
    let failed = ConnectError::Failed { message: "no route".to_string() };
    let reason = SyncReason::NewNeighbor;
    let step = connect_ended(&mut actor, ns, peer(2), reason, Err(failed), 2);
    assert!(matches!(step.next, Next::Nothing));
    assert_eq!(step.actions.len(), 2);
    assert_eq!(step.actions[1], pending_ready(ns));
}

#[test]
fn a_sync_that_is_put_off_is_started_after_the_question() {
    let ns = namespace(1);
    let mut actor = engine(peer(1), ns);
    batch_of_one(&mut actor, remote_insert(ns, b"a", *peer(3).as_bytes(), false));
    let news = || Input::News { namespace: ns, from: peer(2), news: News::Updated };
    actor.on_input_at(news(), at(1));
    actor.on_input_at(news(), at(2));
    let done = finished(ns, peer(2), 0, None);
    let step = connect_ended(&mut actor, ns, peer(2), SyncReason::SyncReport, Ok(done), 3);
    let input = Input::Statuses { query: query(step), statuses: vec![BlobStatus::NotFound] };
    let step = actor.on_input_at(input, at(4));
    assert_eq!(
        step.actions,
        vec![
            Action::Download { namespace: ns, hash: hash(b"a") },
            Action::Connect { namespace: ns, peer: peer(2), reason: SyncReason::Resync },
        ]
    );
}

#[test]
fn subscribers_hear_of_events_until_they_are_gone() {
    let ns = namespace(1);
    let mut actor = engine(peer(1), ns);
    let (a_tx, a_rx) = async_channel::unbounded();
    let (b_tx, b_rx) = async_channel::unbounded();
    message(&mut actor, ToLiveActor::Subscribe { namespace: ns, sender: a_tx }, 1);
    message(&mut actor, ToLiveActor::Subscribe { namespace: ns, sender: b_tx }, 1);
    drop(a_rx);
    let event = Event::NeighborUp(peer(2));
    let delivered: Vec<bool> = actor
        .senders(&ns)
        .unwrap()
        .iter()
        .map(|sender| sender.try_send(event.clone()).is_ok())
        .collect();
    assert_eq!(delivered, vec![false, true]);
    assert!(actor.on_emitted(&ns, &delivered));
    assert_eq!(actor.senders(&ns).unwrap().len(), 1);
    assert_eq!(b_rx.try_recv().unwrap(), event);
    assert!(!actor.on_emitted(&namespace(9), &vec![]));
}

#[test]
fn statuses_are_used_only_if_there_is_one_for_each_hash() {
    let complete = BlobStatus::Complete { size: 1 };
    assert_eq!(batch_statuses(1, Some(vec![complete])), Some(vec![complete]));
    assert_eq!(batch_statuses(2, Some(vec![complete])), None);
    assert_eq!(batch_statuses(0, Some(vec![complete])), None);
    assert_eq!(batch_statuses(1, None), None);
    assert_eq!(
        status_hashes_one_by_one(vec![Some(complete), None]),
        vec![complete, BlobStatus::NotFound]
    );
}

#[test]
fn the_present_time_is_noted() {
    let ns = namespace(1);
    let mut actor = engine(peer(1), ns);
    let earliest = SystemTime::now();
    actor.on_input(Input::Message(Some(ToLiveActor::NeighborUp {
        namespace: ns,
        peer: peer(2),
    })));
    let end = ConnectEnd {
        namespace: ns,
        peer: peer(2),
        reason: SyncReason::NewNeighbor,
        result: Err(already_syncing()),
    };
    let step = actor.on_input(Input::SyncConnect(Some(end)));
    match &step.actions[0] {
        Action::Emit { event: Event::SyncFinished(event), .. } => {
            assert!(earliest <= event.started);
            assert!(event.finished <= SystemTime::now());
        }
        action => panic!("unexpected {action:?}"),
    }
}

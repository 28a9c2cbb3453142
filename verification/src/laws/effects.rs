//! What each input does, said of what is known before and after it.

use n0_future::time::SystemTime;
use vstd::prelude::*;

use crate::hashes::{has_namespace, hashes_of};
use crate::ids::{ContentHash, Id, InvalidPublicKey, NamespaceId, PublicKey};
use crate::laws::actions::lemma_contains_sum;
use crate::laws::content::{is_asked_about, lemma_grouped};
use crate::live::{
    Action, AfterFlush, ConnectEnd, DownloadCandidate, HashGroup, Input, LiveError, News, Next,
    Step, StoredPeers, MAX_REPLICA_EVENT_BATCH,
};
use crate::messages::{
    AcceptError, ConnectError, ContentStatus, EndpointAddr, Event, Op, ReplicaEvent, SignedEntry,
    SyncDetails, SyncEvent, SyncFinished, SyncReport, ToLiveActor,
};
use crate::model::{
    batch_taken, connect_actions, enumerates, flush_step_taken, in_words, input_taken, is_grouping,
    is_redrive, join_actions, or_refused, peers_extended, peers_joined, redriven,
    replica_event_taken, report_actions, stored_keys, sync_finish_taken, LiveModel,
};
use crate::outside::is_public_key;
use crate::sorted::first_differs;
use crate::state::{
    accept_answer, connect_started, may_connect, request_answered, AbortReason, AcceptOutcome,
    Origin, States, SyncReason, SyncState,
};

verus! {

/// The sync of a document with a peer that is running, as it is stored.
pub open spec fn stored_sync(states: States, namespace: NamespaceId, peer: PublicKey) -> SyncState {
    if states.contains_key(namespace) && states[namespace].peers.contains_key(peer) {
        states[namespace].peers[peer].sync
    } else {
        SyncState::Idle
    }
}

/// Whether another sync of a document with a peer is asked for, as it is stored.
pub open spec fn stored_resync(states: States, namespace: NamespaceId, peer: PublicKey) -> bool {
    &&& states.contains_key(namespace)
    &&& states[namespace].peers.contains_key(peer)
    &&& states[namespace].peers[peer].resync_requested
}

/// Whether the end of the last download is to be announced, as it is stored.
pub open spec fn stored_due(states: States, namespace: NamespaceId) -> bool {
    states.contains_key(namespace) && states[namespace].may_emit_ready
}

/// The same documents are synced, and nothing differs but how one of them stands with one peer and
/// what is to be announced of that document.
pub open spec fn differ_in_one_sync(
    a: States,
    b: States,
    namespace: NamespaceId,
    peer: PublicKey,
) -> bool {
    &&& forall|other: NamespaceId| #[trigger] b.contains_key(other) <==> a.contains_key(other)
    &&& forall|other: NamespaceId|
        other != namespace ==> #[trigger] stored_due(b, other) == stored_due(a, other)
    &&& forall|other: NamespaceId, node: PublicKey|
        other != namespace || node != peer ==> #[trigger] stored_sync(b, other, node)
            == stored_sync(a, other, node)
    &&& forall|other: NamespaceId, node: PublicKey|
        other != namespace || node != peer ==> #[trigger] stored_resync(b, other, node)
            == stored_resync(a, other, node)
}

/// Nothing but how documents stand with peers has changed.
pub open spec fn same_but_for_states(a: LiveModel, b: LiveModel) -> bool {
    b == LiveModel { states: b.states, ..a }
}

/// The action, if it is called for.
pub open spec fn if_due(due: bool, action: Action) -> Seq<Action> {
    if due {
        seq![action]
    } else {
        Seq::empty()
    }
}

/// The peer is dialed: the document is synced, and no sync of it with the peer is running.
pub open spec fn is_free(states: States, namespace: NamespaceId, peer: PublicKey) -> bool {
    states.contains_key(namespace) && stored_sync(states, namespace, peer) is Idle
}

/// How one asks for a sync from this side: a peer that is free is noted as dialed, now and for this
/// reason. A sync that is running is left alone, and asked for again if the peer reported news,
/// whoever started it and for whatever reason.
pub open spec fn sync_asked_for(
    a: States,
    b: States,
    namespace: NamespaceId,
    peer: PublicKey,
    reason: SyncReason,
    now: SystemTime,
) -> bool {
    &&& differ_in_one_sync(a, b, namespace, peer)
    &&& stored_due(b, namespace) == stored_due(a, namespace)
    &&& if is_free(a, namespace, peer) {
        &&& stored_sync(b, namespace, peer) == SyncState::Running {
            start: now,
            origin: Origin::Connect(reason),
        }
        &&& !stored_resync(b, namespace, peer)
    } else {
        &&& stored_sync(b, namespace, peer) == stored_sync(a, namespace, peer)
        &&& stored_resync(b, namespace, peer) == (stored_resync(a, namespace, peer) || (
        a.contains_key(namespace) && reason == SyncReason::SyncReport))
    }
}

/// What asking for a sync from this side does to the states, and when the peer is dialed.
pub proof fn a_free_peer_is_dialed(
    states: States,
    namespace: NamespaceId,
    peer: PublicKey,
    reason: SyncReason,
    now: SystemTime,
)
    ensures
        may_connect(states, namespace, peer) == is_free(states, namespace, peer),
        sync_asked_for(
            states,
            connect_started(states, namespace, peer, reason, now),
            namespace,
            peer,
            reason,
            now,
        ),
{
}

/// How a request is answered, and what is noted of it. It is not found if the document is not synced.
/// It is allowed if no sync with the peer is running. While one is running that the peer asked for,
/// it is turned down. While this side dials, it is allowed if and only if this side's identifier is
/// the greater one: at the first byte in which the two differ, the peer's is smaller. A request that
/// is allowed is noted as running, and one that is not changes nothing.
pub open spec fn request_is_answered(
    a: States,
    b: States,
    me: PublicKey,
    namespace: NamespaceId,
    peer: PublicKey,
    now: SystemTime,
    answer: AcceptOutcome,
) -> bool {
    let busy = AcceptOutcome::Reject(AbortReason::AlreadySyncing);
    &&& !a.contains_key(namespace) ==> answer == AcceptOutcome::Reject(AbortReason::NotFound)
    &&& a.contains_key(namespace) ==> match stored_sync(a, namespace, peer) {
        SyncState::Idle => answer == AcceptOutcome::Allow,
        SyncState::Running { origin: Origin::Accept, .. } => answer == busy,
        SyncState::Running { origin: Origin::Connect(_), .. } => {
            &&& answer == AcceptOutcome::Allow || answer == busy
            &&& answer == AcceptOutcome::Allow <==> exists|i: int|
                {
                    &&& 0 <= i < 32
                    &&& (#[trigger] peer.bytes()[i]) < me.bytes()[i]
                    &&& forall|j: int| 0 <= j < i ==> #[trigger] peer.bytes()[j] == me.bytes()[j]
                }
        },
    }
    &&& answer != AcceptOutcome::Allow ==> b == a
    &&& answer == AcceptOutcome::Allow ==> {
        &&& differ_in_one_sync(a, b, namespace, peer)
        &&& stored_due(b, namespace) == stored_due(a, namespace)
        &&& stored_sync(b, namespace, peer) == SyncState::Running {
            start: now,
            origin: Origin::Accept,
        }
        &&& !stored_resync(b, namespace, peer)
    }
}

/// A request is answered by how the document stands with the peer that asks, and by nothing else.
pub proof fn a_request_is_answered_by_the_sync_with_that_peer(
    states: States,
    me: PublicKey,
    namespace: NamespaceId,
    peer: PublicKey,
    now: SystemTime,
)
    ensures
        request_is_answered(
            states,
            request_answered(states, me, namespace, peer, now),
            me,
            namespace,
            peer,
            now,
            accept_answer(states, me, namespace, peer),
        ),
{
    me.bytes_identify(peer);
    peer.bytes_identify(me);
    let (p, m) = (peer.bytes(), me.bytes());
    if exists|i: int|
        {
            &&& 0 <= i < 32
            &&& (#[trigger] p[i]) < m[i]
            &&& forall|j: int| 0 <= j < i ==> #[trigger] p[j] == m[j]
        } {
        let i = choose|i: int|
            {
                &&& 0 <= i < 32
                &&& (#[trigger] p[i]) < m[i]
                &&& forall|j: int| 0 <= j < i ==> #[trigger] p[j] == m[j]
            };
        assert(first_differs(p, m, i));
    }
}

/// A document that is to be synced is opened first if it is not synced yet. Its peers are handed
/// on as they are.
pub proof fn a_document_is_opened_before_it_is_synced(
    before: LiveModel,
    namespace: NamespaceId,
    peers: Vec<EndpointAddr>,
    now: SystemTime,
    after: LiveModel,
    step: Step,
)
    requires
        input_taken(
            before,
            Input::Message(Some(ToLiveActor::StartSync { namespace, peers })),
            now,
            after,
            step,
        ),
    ensures
        after == before,
        step.actions@.len() == 0,
        before.states.contains_key(namespace) ==> step.next == (Next::ReadSyncPeers {
            namespace,
            peers,
        }),
        !before.states.contains_key(namespace) ==> step.next == (Next::OpenReplica {
            namespace,
            peers,
        }),
{
}

/// A document that was opened is synced from then on, with no sync running and nothing to be
/// announced if it was not synced before. Others stay as they are. One that could not be opened
/// changes nothing.
pub proof fn a_document_that_was_opened_is_synced(
    before: LiveModel,
    namespace: NamespaceId,
    peers: Vec<EndpointAddr>,
    opened: bool,
    now: SystemTime,
    after: LiveModel,
    step: Step,
)
    requires
        input_taken(before, Input::Opened { namespace, peers, opened }, now, after, step),
    ensures
        step.actions@.len() == 0,
        !opened ==> after == before && step.next == Next::Nothing,
        opened ==> {
            &&& step.next == Next::ReadSyncPeers { namespace, peers }
            &&& same_but_for_states(before, after)
            &&& after.states.contains_key(namespace)
            &&& forall|other: NamespaceId|
                other != namespace ==> (#[trigger] after.states.contains_key(other)
                    <==> before.states.contains_key(other))
            &&& forall|other: NamespaceId| #[trigger]
                stored_due(after.states, other) == stored_due(before.states, other)
            &&& forall|other: NamespaceId, node: PublicKey| #[trigger]
                stored_sync(after.states, other, node) == stored_sync(before.states, other, node)
            &&& forall|other: NamespaceId, node: PublicKey| #[trigger]
                stored_resync(after.states, other, node) == stored_resync(
                    before.states,
                    other,
                    node,
                )
        },
{
}

/// A document that is left is not synced any longer and has to be closed; others stay as they are.
/// Its subscribers go once it is closed, or at once if it was not synced, and only if they are to.
pub proof fn a_document_that_is_left_is_closed(
    before: LiveModel,
    namespace: NamespaceId,
    kill_subscribers: bool,
    now: SystemTime,
    after: LiveModel,
    step: Step,
)
    requires
        input_taken(
            before,
            Input::Message(Some(ToLiveActor::Leave { namespace, kill_subscribers })),
            now,
            after,
            step,
        ),
    ensures
        step.actions@.len() == 0,
        !after.states.contains_key(namespace),
        forall|other: NamespaceId|
            other != namespace ==> {
                &&& #[trigger] after.states.contains_key(other) <==> before.states.contains_key(
                    other,
                )
                &&& after.states.contains_key(other) ==> after.states[other]
                    == before.states[other]
            },
        before.states.contains_key(namespace) ==> {
            &&& same_but_for_states(before, after)
            &&& step.next == Next::CloseReplica { namespace, kill_subscribers }
        },
        !before.states.contains_key(namespace) ==> {
            &&& step.next == Next::Nothing
            &&& subscribers_gone(before, after, namespace, kill_subscribers)
        },
{
    if !before.states.contains_key(namespace) {
        assert(before.states =~= before.states.remove(namespace));
    }
}

/// Nothing differs but that the subscribers of one document are gone, if they are to go.
pub open spec fn subscribers_gone(
    a: LiveModel,
    b: LiveModel,
    namespace: NamespaceId,
    gone: bool,
) -> bool {
    &&& b == LiveModel { subscribers: b.subscribers, ..a }
    &&& !gone ==> b.subscribers == a.subscribers
    &&& gone ==> {
        &&& !b.subscribers.contains_key(namespace)
        &&& forall|other: NamespaceId|
            other != namespace ==> {
                &&& #[trigger] b.subscribers.contains_key(other) <==> a.subscribers.contains_key(
                    other,
                )
                &&& b.subscribers.contains_key(other) ==> b.subscribers[other]
                    == a.subscribers[other]
            }
    }
}

/// When a document was closed its swarm is left, and its subscribers go if they are to. If it could
/// not be closed, nothing happens.
pub proof fn a_document_that_was_closed_leaves_its_swarm(
    before: LiveModel,
    namespace: NamespaceId,
    kill_subscribers: bool,
    closed: bool,
    now: SystemTime,
    after: LiveModel,
    step: Step,
)
    requires
        input_taken(
            before,
            Input::Closed { namespace, kill_subscribers, closed },
            now,
            after,
            step,
        ),
    ensures
        step.next == Next::Nothing,
        step.actions@ == if_due(closed, Action::QuitGossip { namespace }),
        !closed ==> after == before,
        closed ==> subscribers_gone(before, after, namespace, kill_subscribers),
{
}

/// A subscriber is added behind those of the same document, and nothing else happens.
pub proof fn a_subscriber_is_added_last(
    before: LiveModel,
    namespace: NamespaceId,
    sender: async_channel::Sender<Event>,
    now: SystemTime,
    after: LiveModel,
    step: Step,
)
    requires
        input_taken(
            before,
            Input::Message(Some(ToLiveActor::Subscribe { namespace, sender })),
            now,
            after,
            step,
        ),
    ensures
        step.actions@.len() == 0,
        step.next == Next::Nothing,
        after == (LiveModel { subscribers: after.subscribers, ..before }),
        after.subscribers.contains_key(namespace),
        after.subscribers[namespace].last() == sender,
        before.subscribers.contains_key(namespace) ==> after.subscribers[namespace].drop_last()
            == before.subscribers[namespace],
        !before.subscribers.contains_key(namespace) ==> after.subscribers[namespace].len() == 1,
        forall|other: NamespaceId|
            other != namespace ==> {
                &&& #[trigger] after.subscribers.contains_key(other)
                    <==> before.subscribers.contains_key(other)
                &&& after.subscribers.contains_key(other) ==> after.subscribers[other]
                    == before.subscribers[other]
            },
{
    if before.subscribers.contains_key(namespace) {
        assert(after.subscribers[namespace].drop_last() =~= before.subscribers[namespace]);
    }
}

/// What the engine is told that needs no decision changes nothing: it stops, serves the connection,
/// or fails with the error that says what broke down.
pub proof fn some_inputs_only_pass_on(
    before: LiveModel,
    input: Input,
    now: SystemTime,
    after: LiveModel,
    step: Step,
)
    requires
        input_taken(before, input, now, after, step),
        input matches Input::Message(Some(msg)) ==> msg is Shutdown || msg is HandleConnection,
        input is Message || input == Input::ReplicaEvent(None) || input == Input::SyncConnect(None)
            || input == Input::SyncAccept(None) || input == Input::Download(None),
    ensures
        after == before,
        step.actions@.len() == 0,
        input == Input::Message(Some(ToLiveActor::Shutdown)) ==> step.next == Next::Stop,
        input == Input::Message(Some(ToLiveActor::HandleConnection)) ==> step.next
            == Next::ServeConnection,
        input == Input::Message(None) ==> step.next == Next::Fail(LiveError::InboxClosed),
        input == Input::ReplicaEvent(None) ==> step.next == Next::Fail(
            LiveError::ReplicaEventsClosed,
        ),
        input == Input::SyncConnect(None) ==> step.next == Next::Fail(LiveError::ConnectTaskFailed),
        input == Input::SyncAccept(None) ==> step.next == Next::Fail(LiveError::AcceptTaskFailed),
        input == Input::Download(None) ==> step.next == Next::Fail(LiveError::DownloadTaskFailed),
{
}

/// A request that comes as a message is answered as requests are, and changes nothing but how the
/// document stands with the peer.
pub proof fn a_request_gets_its_answer(
    before: LiveModel,
    namespace: NamespaceId,
    peer: PublicKey,
    now: SystemTime,
    after: LiveModel,
    step: Step,
)
    requires
        input_taken(
            before,
            Input::Message(Some(ToLiveActor::AcceptSyncRequest { namespace, peer })),
            now,
            after,
            step,
        ),
    ensures
        step.actions@.len() == 0,
        same_but_for_states(before, after),
        after.states == request_answered(before.states, before.me, namespace, peer, now),
        step.next == Next::Answer(accept_answer(before.states, before.me, namespace, peer)),
        before.states.contains_key(namespace) && stored_sync(before.states, namespace, peer)
            is Idle ==> step.next == Next::Answer(AcceptOutcome::Allow) && stored_sync(
            after.states,
            namespace,
            peer,
        ) == (SyncState::Running { start: now, origin: Origin::Accept }),
        step.next == Next::Answer(AcceptOutcome::Reject(AbortReason::AlreadySyncing))
            ==> before.states.contains_key(namespace) && stored_sync(
            before.states,
            namespace,
            peer,
        ) is Running,
        step.next == Next::Answer(AcceptOutcome::Reject(AbortReason::NotFound))
            <==> !before.states.contains_key(namespace),
{
    a_request_is_answered_by_the_sync_with_that_peer(
        before.states,
        before.me,
        namespace,
        peer,
        now,
    );
}

/// A report is looked at if and only if the document is synced. The report and its sender are handed
/// on as they are.
pub proof fn a_report_is_looked_at_while_the_document_is_synced(
    before: LiveModel,
    from: PublicKey,
    report: SyncReport,
    now: SystemTime,
    after: LiveModel,
    step: Step,
)
    requires
        input_taken(
            before,
            Input::Message(Some(ToLiveActor::IncomingSyncReport { from, report })),
            now,
            after,
            step,
        ),
    ensures
        after == before,
        step.actions@.len() == 0,
        before.states.contains_key(report.namespace) ==> step.next == (Next::CheckNews {
            from,
            report,
        }),
        !before.states.contains_key(report.namespace) ==> step.next == Next::Nothing,
{
}

/// News lead to a sync with the peer that reported them: at once if it is free, and when the sync
/// that is running has ended otherwise, whichever side started that and for whatever reason. A
/// report without news changes nothing.
pub proof fn news_are_synced_now_or_later(
    before: LiveModel,
    namespace: NamespaceId,
    from: PublicKey,
    news: News,
    now: SystemTime,
    after: LiveModel,
    step: Step,
)
    requires
        input_taken(before, Input::News { namespace, from, news }, now, after, step),
    ensures
        step.next == Next::Nothing,
        step.actions@ == if_due(
            news is Updated && is_free(before.states, namespace, from),
            Action::Connect { namespace, peer: from, reason: SyncReason::SyncReport },
        ),
        !(news is Updated) ==> after == before,
        news is Updated ==> same_but_for_states(before, after) && sync_asked_for(
            before.states,
            after.states,
            namespace,
            from,
            SyncReason::SyncReport,
            now,
        ),
        news is Updated && stored_sync(before.states, namespace, from) is Running ==> {
            &&& stored_resync(after.states, namespace, from)
            &&& stored_sync(after.states, namespace, from) == stored_sync(
                before.states,
                namespace,
                from,
            )
        },
{
    a_free_peer_is_dialed(before.states, namespace, from, SyncReason::SyncReport, now);
}

/// A neighbor that came is dialed if it is free, and told of in any case.
pub proof fn a_new_neighbor_is_dialed_and_told_of(
    before: LiveModel,
    namespace: NamespaceId,
    peer: PublicKey,
    now: SystemTime,
    after: LiveModel,
    step: Step,
)
    requires
        input_taken(
            before,
            Input::Message(Some(ToLiveActor::NeighborUp { namespace, peer })),
            now,
            after,
            step,
        ),
    ensures
        step.next == Next::Nothing,
        step.actions@ == if_due(
            is_free(before.states, namespace, peer),
            Action::Connect { namespace, peer, reason: SyncReason::NewNeighbor },
        ) + seq![Action::Emit { namespace, event: Event::NeighborUp(peer) }],
        same_but_for_states(before, after),
        sync_asked_for(
            before.states,
            after.states,
            namespace,
            peer,
            SyncReason::NewNeighbor,
            now,
        ),
{
    a_free_peer_is_dialed(before.states, namespace, peer, SyncReason::NewNeighbor, now);
}

/// A neighbor that went is told of, and nothing else happens.
pub proof fn a_lost_neighbor_is_told_of(
    before: LiveModel,
    namespace: NamespaceId,
    peer: PublicKey,
    now: SystemTime,
    after: LiveModel,
    step: Step,
)
    requires
        input_taken(
            before,
            Input::Message(Some(ToLiveActor::NeighborDown { namespace, peer })),
            now,
            after,
            step,
        ),
    ensures
        after == before,
        step.next == Next::Nothing,
        step.actions@ == seq![Action::Emit { namespace, event: Event::NeighborDown(peer) }],
{
}

/// The groups part the candidates by hash: each group has a hash of its own and holds the candidates
/// of that hash, of which there are some, in the order in which they came; and no candidate is left
/// out.
pub open spec fn parts_by_hash(
    candidates: Seq<DownloadCandidate>,
    groups: Seq<HashGroup>,
) -> bool {
    &&& forall|i: int|
        0 <= i < groups.len() ==> {
            &&& (#[trigger] groups[i]).candidates@.len() > 0
            &&& groups[i].candidates@ == candidates.filter(
                |candidate: DownloadCandidate| candidate.hash == groups[i].hash,
            )
        }
    &&& forall|i: int, j: int|
        0 <= i < j < groups.len() ==> (#[trigger] groups[i]).hash != (#[trigger] groups[j]).hash
    &&& forall|k: int|
        0 <= k < candidates.len() ==> is_asked_about(groups, #[trigger] candidates[k])
}

/// The downloads are taken up: if there are any, they are asked about by hash, and none is pending
/// any longer. Nothing else changes.
pub open spec fn all_taken_up(
    candidates: Seq<DownloadCandidate>,
    before: LiveModel,
    after: LiveModel,
    next: Next,
) -> bool {
    &&& after == LiveModel { pending: after.pending, ..before }
    &&& after.pending.len() == 0
    &&& candidates.len() == 0 ==> next == Next::Nothing
    &&& candidates.len() > 0 ==> {
        &&& next matches Next::QueryStatuses(query)
        &&& query.purpose() == AfterFlush::Nothing
        &&& parts_by_hash(candidates, query.groups())
    }
}

proof fn lemma_taken_up(before: LiveModel, after: LiveModel, next: Next)
    requires
        flush_step_taken(before, after, next),
    ensures
        all_taken_up(before.pending, before, after, next),
{
    if let Next::QueryStatuses(query) = next {
        lemma_parts(before.pending, query.groups());
    }
}

proof fn lemma_parts(candidates: Seq<DownloadCandidate>, groups: Seq<HashGroup>)
    requires
        is_grouping(candidates, groups),
    ensures
        parts_by_hash(candidates, groups),
{
    assert forall|k: int| 0 <= k < candidates.len() implies is_asked_about(
        groups,
        #[trigger] candidates[k],
    ) by {
        lemma_grouped(candidates, groups, candidates[k]);
    }
}

/// Content that a neighbor offers is asked about at once, together with what is pending already,
/// and is wanted only where it is missing.
pub proof fn an_offer_of_content_is_asked_about(
    before: LiveModel,
    namespace: NamespaceId,
    node: PublicKey,
    hash: ContentHash,
    now: SystemTime,
    after: LiveModel,
    step: Step,
)
    requires
        input_taken(
            before,
            Input::Message(Some(ToLiveActor::NeighborContentReady { namespace, node, hash })),
            now,
            after,
            step,
        ),
    ensures
        step.actions@.len() == 0,
        all_taken_up(
            before.pending.push(
                DownloadCandidate { namespace, hash, node, only_if_missing: true },
            ),
            before,
            after,
            step.next,
        ),
{
    let candidate = DownloadCandidate { namespace, hash, node, only_if_missing: true };
    lemma_taken_up(
        LiveModel { pending: before.pending.push(candidate), ..before },
        after,
        step.next,
    );
}

/// The change that an input brings, and how many of its batch were handled before it.
pub open spec fn brings_change(input: Input, handled: nat, event: ReplicaEvent) -> bool {
    ||| input == Input::ReplicaEvent(Some(event)) && handled == 0
    ||| {
        &&& input matches Input::BatchEvent { handled: so_far, event: Some(brought) }
        &&& so_far == handled
        &&& brought == event
    }
}

/// How a step of a batch goes on: after the first change and up to 1023 more, the next one is asked
/// for and nothing is taken up. After the one behind those, the downloads are taken up.
pub open spec fn batch_goes_on(
    handled: nat,
    changed: LiveModel,
    after: LiveModel,
    next: Next,
) -> bool {
    if handled < 1024 {
        &&& after == changed
        &&& next matches Next::NextInBatch { handled: so_far }
        &&& so_far == handled + 1
    } else {
        all_taken_up(changed.pending, changed, after, next)
    }
}

/// An entry that was inserted on this side is broadcast, once and as it is, if the document is
/// synced, whatever else is known. Nothing changes by it.
pub proof fn an_entry_from_here_is_broadcast(
    before: LiveModel,
    input: Input,
    handled: nat,
    namespace: NamespaceId,
    entry: SignedEntry,
    now: SystemTime,
    after: LiveModel,
    step: Step,
)
    requires
        input_taken(before, input, now, after, step),
        brings_change(input, handled, ReplicaEvent::LocalInsert { namespace, entry }),
    ensures
        step.actions@ == if_due(
            before.states.contains_key(namespace),
            Action::Broadcast { namespace, op: Op::Put(entry) },
        ),
        batch_goes_on(handled, before, after, step.next),
{
    let event = ReplicaEvent::LocalInsert { namespace, entry };
    assert(batch_taken(before, handled, Some(event), after, step));
    let (changed, result) = choose|
        changed: LiveModel,
        result: Result<Vec<Action>, InvalidPublicKey>,
    |
        {
            &&& #[trigger] replica_event_taken(before, event, changed, result)
            &&& step.actions@ == or_refused(result)
            &&& if handled < MAX_REPLICA_EVENT_BATCH {
                &&& after == changed
                &&& step.next matches Next::NextInBatch { handled: so_far }
                &&& so_far == handled + 1
            } else {
                flush_step_taken(changed, after, step.next)
            }
        };
    if handled >= MAX_REPLICA_EVENT_BATCH {
        lemma_taken_up(changed, after, step.next);
    }
}

/// The content of an entry that was received is dealt with by what its sender has of it. If it is
/// not wanted, nothing happens. If the sender has all of it, it is to be downloaded from the sender,
/// missing or not; but if the sender's key is none, that is complained of, and nothing else happens.
/// If the sender does not have all of it, it is missing. Nothing is broadcast.
pub proof fn the_content_of_a_received_entry_is_wanted(
    before: LiveModel,
    input: Input,
    handled: nat,
    namespace: NamespaceId,
    entry: SignedEntry,
    from: [u8; 32],
    should_download: bool,
    remote_content_status: ContentStatus,
    now: SystemTime,
    after: LiveModel,
    step: Step,
)
    requires
        input_taken(before, input, now, after, step),
        brings_change(
            input,
            handled,
            ReplicaEvent::RemoteInsert {
                namespace,
                entry,
                from,
                should_download,
                remote_content_status,
            },
        ),
    ensures
        exists|changed: LiveModel|
            #![trigger batch_goes_on(handled, changed, after, step.next)]
            {
                let hash = entry.content_hash;
                let refused = should_download && remote_content_status is Complete
                    && !is_public_key(from@);
                &&& batch_goes_on(handled, changed, after, step.next)
                &&& refused ==> step.actions@.len() == 1 && step.actions@[0] is ReportRefused
                &&& !refused ==> step.actions@.len() == 0
                &&& changed == LiveModel {
                    missing: changed.missing,
                    pending: changed.pending,
                    ..before
                }
                &&& if should_download && remote_content_status is Complete && !refused {
                    &&& changed.missing == before.missing
                    &&& changed.pending.len() == before.pending.len() + 1
                    &&& changed.pending.drop_last() == before.pending
                    &&& changed.pending.last().namespace == namespace
                    &&& changed.pending.last().hash == hash
                    &&& changed.pending.last().node.bytes() == from@
                    &&& !changed.pending.last().only_if_missing
                } else {
                    changed.pending == before.pending
                }
                &&& if should_download && !(remote_content_status is Complete) {
                    &&& changed.missing.contains((hash, namespace))
                    &&& forall|pair: (ContentHash, NamespaceId)|
                        pair != (hash, namespace) ==> (#[trigger] changed.missing.contains(pair)
                            <==> before.missing.contains(pair))
                } else {
                    changed.missing == before.missing
                }
            },
{
    let event = ReplicaEvent::RemoteInsert {
        namespace,
        entry,
        from,
        should_download,
        remote_content_status,
    };
    assert(batch_taken(before, handled, Some(event), after, step));
    let (changed, result) = choose|
        changed: LiveModel,
        result: Result<Vec<Action>, InvalidPublicKey>,
    |
        {
            &&& #[trigger] replica_event_taken(before, event, changed, result)
            &&& step.actions@ == or_refused(result)
            &&& if handled < MAX_REPLICA_EVENT_BATCH {
                &&& after == changed
                &&& step.next matches Next::NextInBatch { handled: so_far }
                &&& so_far == handled + 1
            } else {
                flush_step_taken(changed, after, step.next)
            }
        };
    if handled >= MAX_REPLICA_EVENT_BATCH {
        lemma_taken_up(changed, after, step.next);
    }
    assert(batch_goes_on(handled, changed, after, step.next));
    if should_download && remote_content_status is Complete && is_public_key(from@) {
        assert(changed.pending.drop_last() =~= before.pending);
    }
}

/// At the end of a batch the downloads are taken up, and nothing else happens.
pub proof fn the_end_of_a_batch_takes_downloads_up(
    before: LiveModel,
    handled: usize,
    now: SystemTime,
    after: LiveModel,
    step: Step,
)
    requires
        input_taken(before, Input::BatchEvent { handled, event: None }, now, after, step),
    ensures
        step.actions@.len() == 0,
        all_taken_up(before.pending, before, after, step.next),
{
    lemma_taken_up(before, after, step.next);
}

/// Some content is related to the document.
pub open spec fn any_content(
    pairs: Set<(ContentHash, NamespaceId)>,
    namespace: NamespaceId,
) -> bool {
    exists|hash: ContentHash| #[trigger] pairs.contains((hash, namespace))
}

/// What is reported at the end of a sync: a peer that was synced with is of use, and if at least one
/// entry was received, the neighbors of a document that is synced get the heads, if there are any.
pub open spec fn reported(
    before: LiveModel,
    namespace: NamespaceId,
    peer: PublicKey,
    result: Result<SyncFinished, String>,
) -> Seq<Action> {
    match result {
        Ok(finished) => seq![Action::RegisterUsefulPeer { namespace, peer }] + match
            finished.outcome.heads_received {
            Some(heads) => if_due(
                finished.outcome.num_recv != 0 && before.states.contains_key(namespace),
                Action::BroadcastNeighbors {
                    namespace,
                    op: Op::SyncReport(SyncReport { namespace, heads }),
                },
            ),
            None => Seq::empty(),
        },
        Err(_) => Seq::empty(),
    }
}

/// What is told of the end of a sync: who it was with, who started it and when, when it ended, and
/// how many entries went each way, or what went wrong.
pub open spec fn sync_told(
    namespace: NamespaceId,
    peer: PublicKey,
    origin: Origin,
    start: SystemTime,
    now: SystemTime,
    result: Result<SyncFinished, String>,
) -> Action {
    Action::Emit {
        namespace,
        event: Event::SyncFinished(
            SyncEvent {
                peer,
                origin,
                finished: now,
                started: start,
                result: match result {
                    Ok(finished) => Ok(
                        SyncDetails {
                            entries_received: finished.outcome.num_recv,
                            entries_sent: finished.outcome.num_sent,
                        },
                    ),
                    Err(message) => Err(message),
                },
            },
        ),
    }
}

/// The missing content of the document is asked for from the peer: the groups part what is pending,
/// and behind it each piece of content that is missing, once.
pub open spec fn missing_asked_for(
    before: LiveModel,
    namespace: NamespaceId,
    peer: PublicKey,
    groups: Seq<HashGroup>,
) -> bool {
    exists|all: Seq<DownloadCandidate>|
        {
            let old = before.pending.len() as int;
            &&& #[trigger] parts_by_hash(all, groups)
            &&& old <= all.len()
            &&& all.take(old) == before.pending
            &&& forall|k: int|
                old <= k < all.len() ==> {
                    &&& (#[trigger] all[k]).namespace == namespace
                    &&& all[k].node == peer
                    &&& all[k].only_if_missing
                    &&& before.missing.contains((all[k].hash, namespace))
                }
            &&& forall|k: int, m: int|
                old <= k < m < all.len() ==> (#[trigger] all[k]).hash != (#[trigger] all[m]).hash
            &&& forall|hash: ContentHash| #[trigger]
                before.missing.contains((hash, namespace)) ==> all.contains(
                    DownloadCandidate { namespace, hash, node: peer, only_if_missing: true },
                )
        }
}

/// How a sync is brought to its end in the states: the peer is free again, or dialed again at once,
/// and whether the end of downloads is to be announced is noted for the document.
pub open spec fn peer_let_go(
    a: States,
    b: States,
    namespace: NamespaceId,
    peer: PublicKey,
    again: bool,
    now: SystemTime,
    due: bool,
) -> bool {
    &&& differ_in_one_sync(a, b, namespace, peer)
    &&& stored_due(b, namespace) == due
    &&& !stored_resync(b, namespace, peer)
    &&& stored_sync(b, namespace, peer) == if again {
        SyncState::Running { start: now, origin: Origin::Connect(SyncReason::Resync) }
    } else {
        SyncState::Idle
    }
}

/// What the end of a sync does.
///
/// If the sync that ended is not the one that is noted as running, it is only reported. If it is,
/// it is reported and told of. When it succeeded and the document misses content, that is asked for
/// from the peer first. Otherwise it is told that nothing is pending if no content is queued for the
/// document, and is to be told later if some is; and the peer is dialed again if that was asked for.
pub open spec fn sync_end_is_taken(
    before: LiveModel,
    namespace: NamespaceId,
    peer: PublicKey,
    origin: Origin,
    result: Result<SyncFinished, String>,
    now: SystemTime,
    after: LiveModel,
    step: Step,
) -> bool {
    let report = reported(before, namespace, peer, result);
    match stored_sync(before.states, namespace, peer) {
        SyncState::Running { start, origin: running } if running == origin => {
            let told = report + seq![sync_told(namespace, peer, origin, start, now, result)];
            let again = stored_resync(before.states, namespace, peer);
            if result is Ok && any_content(before.missing, namespace) {
                &&& step.actions@ == told
                &&& step.next matches Next::QueryStatuses(query)
                &&& query.purpose() == AfterFlush::FinishSync { namespace, peer, resync: again }
                &&& missing_asked_for(before, namespace, peer, query.groups())
                &&& after == LiveModel { states: after.states, pending: after.pending, ..before }
                &&& after.pending.len() == 0
                &&& peer_let_go(
                    before.states,
                    after.states,
                    namespace,
                    peer,
                    false,
                    now,
                    stored_due(before.states, namespace),
                )
            } else {
                let waiting = any_content(before.queued, namespace);
                &&& step.next == Next::Nothing
                &&& step.actions@ == told + if_due(
                    !waiting,
                    Action::Emit { namespace, event: Event::PendingContentReady },
                ) + if_due(
                    again,
                    Action::Connect { namespace, peer, reason: SyncReason::Resync },
                )
                &&& same_but_for_states(before, after)
                &&& peer_let_go(
                    before.states,
                    after.states,
                    namespace,
                    peer,
                    again,
                    now,
                    waiting,
                )
            }
        },
        _ => {
            &&& after == before
            &&& step.actions@ == report
            &&& step.next == Next::Nothing
        },
    }
}

proof fn lemma_redrive(
    before: LiveModel,
    namespace: NamespaceId,
    peer: PublicKey,
    groups: Seq<HashGroup>,
)
    requires
        is_redrive(before, namespace, peer, groups),
    ensures
        missing_asked_for(before, namespace, peer, groups),
{
    let hashes = choose|hashes: Seq<ContentHash>|
        {
            &&& #[trigger] enumerates(hashes, hashes_of(before.missing, namespace))
            &&& is_grouping(before.pending + redriven(namespace, peer, hashes), groups)
        };
    let old = before.pending.len() as int;
    let all = before.pending + redriven(namespace, peer, hashes);
    lemma_parts(all, groups);
    assert(all.take(old) =~= before.pending);
    assert forall|k: int| old <= k < all.len() implies {
        &&& (#[trigger] all[k]).namespace == namespace
        &&& all[k].node == peer
        &&& all[k].only_if_missing
        &&& before.missing.contains((all[k].hash, namespace))
    } by {
        assert(hashes.to_set().contains(hashes[k - old]));
        assert(hashes_of(before.missing, namespace).contains(hashes[k - old]));
    }
    assert forall|hash: ContentHash| #[trigger]
        before.missing.contains((hash, namespace)) implies all.contains(
        DownloadCandidate { namespace, hash, node: peer, only_if_missing: true },
    ) by {
        assert(hashes.to_set().contains(hash));
        assert(all[old + hashes.index_of(hash)] == DownloadCandidate {
            namespace,
            hash,
            node: peer,
            only_if_missing: true,
        });
    }
}

proof fn lemma_sync_end(
    before: LiveModel,
    namespace: NamespaceId,
    peer: PublicKey,
    origin: Origin,
    result: Result<SyncFinished, String>,
    now: SystemTime,
    after: LiveModel,
    step: Step,
)
    requires
        sync_finish_taken(before, namespace, peer, origin, result, now, after, step),
    ensures
        sync_end_is_taken(before, namespace, peer, origin, result, now, after, step),
{
    assert(report_actions(before.states, namespace, peer, result) =~= reported(
        before,
        namespace,
        peer,
        result,
    ));
    if let SyncState::Running { start, origin: running } = stored_sync(
        before.states,
        namespace,
        peer,
    ) {
        if running == origin {
            let report = reported(before, namespace, peer, result);
            let event = sync_told(namespace, peer, origin, start, now, result);
            assert(report.push(event) =~= report + seq![event]);
            if result is Ok && has_namespace(before.missing, namespace) {
                if let Next::QueryStatuses(query) = step.next {
                    lemma_redrive(before, namespace, peer, query.groups());
                }
            } else {
                let waiting = any_content(before.queued, namespace);
                let again = stored_resync(before.states, namespace, peer);
                assert(step.actions@ =~= report + seq![event] + if_due(
                    !waiting,
                    Action::Emit { namespace, event: Event::PendingContentReady },
                ) + if_due(
                    again,
                    Action::Connect { namespace, peer, reason: SyncReason::Resync },
                ));
            }
        }
    }
}

/// What the end of a sync that was started from this side does, however it ended.
pub proof fn the_end_of_a_dial_is_taken(
    before: LiveModel,
    end: ConnectEnd,
    now: SystemTime,
    after: LiveModel,
    step: Step,
)
    requires
        input_taken(before, Input::SyncConnect(Some(end)), now, after, step),
    ensures
        sync_end_is_taken(
            before,
            end.namespace,
            end.peer,
            Origin::Connect(end.reason),
            match end.result {
                Ok(finished) => Ok(finished),
                Err(ConnectError::RemoteAbort { message, .. }) => Err(message),
                Err(ConnectError::Failed { message }) => Err(message),
            },
            now,
            after,
            step,
        ),
{
    lemma_sync_end(
        before,
        end.namespace,
        end.peer,
        Origin::Connect(end.reason),
        in_words(end.result),
        now,
        after,
        step,
    );
}

/// What the end of a sync that a peer started does. One that this side turned down because another
/// one is running does nothing, nor does one of which the peer or the document is not known. Every
/// other one is taken as an accepted sync that ended.
pub proof fn the_end_of_an_accepted_sync_is_taken(
    before: LiveModel,
    res: Result<SyncFinished, AcceptError>,
    now: SystemTime,
    after: LiveModel,
    step: Step,
)
    requires
        input_taken(before, Input::SyncAccept(Some(res)), now, after, step),
    ensures
        match res {
            Ok(finished) => sync_end_is_taken(
                before,
                finished.namespace,
                finished.peer,
                Origin::Accept,
                Ok(finished),
                now,
                after,
                step,
            ),
            Err(AcceptError::Abort { peer, namespace, reason, message }) => if reason
                == AbortReason::AlreadySyncing {
                after == before && step.actions@.len() == 0 && step.next == Next::Nothing
            } else {
                sync_end_is_taken(
                    before,
                    namespace,
                    peer,
                    Origin::Accept,
                    Err(message),
                    now,
                    after,
                    step,
                )
            },
            Err(AcceptError::Failed { peer, namespace, message }) => if peer is Some
                && namespace is Some {
                sync_end_is_taken(
                    before,
                    namespace->0,
                    peer->0,
                    Origin::Accept,
                    Err(message),
                    now,
                    after,
                    step,
                )
            } else {
                after == before && step.actions@.len() == 0 && step.next == Next::Nothing
            },
        },
{
    match res {
        Ok(finished) => {
            lemma_sync_end(
                before,
                finished.namespace,
                finished.peer,
                Origin::Accept,
                Ok(finished),
                now,
                after,
                step,
            );
        },
        Err(err) => {
            if !err.is_already_syncing() && err.known_peer() is Some
                && err.known_namespace() is Some {
                lemma_sync_end(
                    before,
                    err.known_namespace()->0,
                    err.known_peer()->0,
                    Origin::Accept,
                    Err(err.text()),
                    now,
                    after,
                    step,
                );
            }
        },
    }
}

/// The first `p` of the peers comes before any `q`.
pub open spec fn comes_earlier(peers: Seq<PublicKey>, p: PublicKey, q: PublicKey) -> bool {
    exists|i: int|
        {
            &&& 0 <= i < peers.len()
            &&& #[trigger] peers[i] == p
            &&& forall|j: int| 0 <= j <= i ==> #[trigger] peers[j] != q
        }
}

/// How peers are joined with: each of them that is free is dialed, once, in the order in which they
/// come up. Every other peer, and every other document, is left alone.
pub open spec fn peers_are_dialed(
    a: States,
    b: States,
    actions: Seq<Action>,
    namespace: NamespaceId,
    peers: Seq<PublicKey>,
    now: SystemTime,
) -> bool {
    let reason = SyncReason::DirectJoin;
    &&& forall|other: NamespaceId| #[trigger] b.contains_key(other) <==> a.contains_key(other)
    &&& forall|other: NamespaceId| #[trigger] stored_due(b, other) == stored_due(a, other)
    &&& forall|other: NamespaceId, node: PublicKey| #[trigger]
        stored_sync(b, other, node) == if other == namespace && peers.contains(node) && is_free(
            a,
            namespace,
            node,
        ) {
            SyncState::Running { start: now, origin: Origin::Connect(reason) }
        } else {
            stored_sync(a, other, node)
        }
    &&& forall|other: NamespaceId, node: PublicKey| #[trigger]
        stored_resync(b, other, node) == (stored_resync(a, other, node) && !(other == namespace
            && peers.contains(node) && is_free(a, namespace, node)))
    &&& forall|k: int|
        0 <= k < actions.len() ==> {
            &&& (#[trigger] actions[k]) matches Action::Connect {
                namespace: about,
                peer,
                reason: why,
            }
            &&& about == namespace
            &&& why == reason
            &&& peers.contains(peer)
            &&& is_free(a, namespace, peer)
        }
    &&& forall|peer: PublicKey| #[trigger]
        peers.contains(peer) && is_free(a, namespace, peer) ==> actions.contains(
            Action::Connect { namespace, peer, reason },
        )
    &&& forall|k: int, m: int|
        0 <= k < m < actions.len() ==> comes_earlier(
            peers,
            (#[trigger] actions[k])->Connect_peer,
            (#[trigger] actions[m])->Connect_peer,
        )
}

proof fn lemma_dialed(
    states: States,
    namespace: NamespaceId,
    peers: Seq<PublicKey>,
    now: SystemTime,
)
    ensures
        peers_are_dialed(
            states,
            peers_joined(states, namespace, peers, now),
            join_actions(states, namespace, peers, now),
            namespace,
            peers,
            now,
        ),
    decreases peers.len(),
{
    let b = peers_joined(states, namespace, peers, now);
    let actions = join_actions(states, namespace, peers, now);
    let reason = SyncReason::DirectJoin;
    if peers.len() > 0 {
        let front = peers.drop_last();
        let last = peers.last();
        lemma_dialed(states, namespace, front, now);
        let mid = peers_joined(states, namespace, front, now);
        let done = join_actions(states, namespace, front, now);
        let more = connect_actions(mid, namespace, last, reason);
        a_free_peer_is_dialed(mid, namespace, last, reason, now);
        assert(stored_sync(mid, namespace, last) == stored_sync(mid, namespace, last));
        assert(peers =~= front + seq![last]);
        assert forall|node: PublicKey| #[trigger]
            peers.contains(node) <==> front.contains(node) || node == last by {
            lemma_contains_sum(front, seq![last], node);
            assert(seq![last][0] == last);
        }
        assert forall|peer: PublicKey| #[trigger]
            peers.contains(peer) && is_free(states, namespace, peer) implies actions.contains(
            Action::Connect { namespace, peer, reason },
        ) by {
            let action = Action::Connect { namespace, peer, reason };
            lemma_contains_sum(done, more, action);
            if !front.contains(peer) {
                assert(stored_sync(mid, namespace, peer) == stored_sync(states, namespace, peer));
                assert(more[0] == action);
            }
        }
        assert forall|k: int, m: int| 0 <= k < m < actions.len() implies comes_earlier(
            peers,
            (#[trigger] actions[k])->Connect_peer,
            (#[trigger] actions[m])->Connect_peer,
        ) by {
            let p = actions[k]->Connect_peer;
            let q = actions[m]->Connect_peer;
            assert(actions[k] == done[k]);
            if m < done.len() {
                assert(actions[m] == done[m]);
                assert(comes_earlier(front, p, q));
                let i = choose|i: int|
                    {
                        &&& 0 <= i < front.len()
                        &&& #[trigger] front[i] == p
                        &&& forall|j: int| 0 <= j <= i ==> #[trigger] front[j] != q
                    };
                assert(peers[i] == p);
                assert forall|j: int| 0 <= j <= i implies #[trigger] peers[j] != q by {
                    assert(front[j] == peers[j]);
                }
            } else {
                assert(q == last);
                assert(is_free(mid, namespace, last));
                assert(!front.contains(last)) by {
                    if front.contains(last) {
                        if is_free(states, namespace, last) {
                            assert(stored_sync(mid, namespace, last) is Running);
                        } else {
                            assert(stored_sync(mid, namespace, last) == stored_sync(
                                states,
                                namespace,
                                last,
                            ));
                            assert(mid.contains_key(namespace));
                        }
                    }
                }
                let i = front.index_of(p);
                assert(front[i] == p);
                assert(peers[i] == p);
                assert forall|j: int| 0 <= j <= i implies #[trigger] peers[j] != q by {
                    assert(front[j] == peers[j]);
                    assert(front.contains(front[j]));
                }
            }
        }
    } else {
        assert(forall|node: PublicKey| !peers.contains(node));
    }
}

/// When the swarm of a document was joined, each of the peers that is free is dialed, once. If it
/// could not be joined, nothing happens.
pub proof fn the_peers_of_a_swarm_are_dialed(
    before: LiveModel,
    namespace: NamespaceId,
    peer_ids: Vec<PublicKey>,
    joined: bool,
    now: SystemTime,
    after: LiveModel,
    step: Step,
)
    requires
        input_taken(before, Input::Joined { namespace, peer_ids, joined }, now, after, step),
    ensures
        step.next == Next::Nothing,
        !joined ==> after == before && step.actions@.len() == 0,
        joined ==> same_but_for_states(before, after) && peers_are_dialed(
            before.states,
            after.states,
            step.actions@,
            namespace,
            peer_ids@,
            now,
        ),
{
    if joined {
        lemma_dialed(before.states, namespace, peer_ids@, now);
    }
}

/// How many of the first `i` items satisfy the condition.
pub open spec fn count_before<T>(items: Seq<T>, holds: spec_fn(T) -> bool, i: int) -> nat
    decreases i,
{
    if i <= 0 {
        0
    } else {
        count_before(items, holds, i - 1) + if holds(items[i - 1]) {
            1nat
        } else {
            0nat
        }
    }
}

/// `kept` is the items that satisfy the condition, each in its place, and nothing else.
pub open spec fn keeps<T>(items: Seq<T>, holds: spec_fn(T) -> bool, kept: Seq<T>) -> bool {
    &&& kept.len() == count_before(items, holds, items.len() as int)
    &&& forall|i: int|
        0 <= i < items.len() && holds(#[trigger] items[i]) ==> kept[count_before(
            items,
            holds,
            i,
        ) as int] == items[i]
}

proof fn lemma_count_prefix<T>(a: Seq<T>, b: Seq<T>, holds: spec_fn(T) -> bool, i: int)
    requires
        0 <= i <= a.len(),
        i <= b.len(),
        forall|j: int| 0 <= j < i ==> a[j] == b[j],
    ensures
        count_before(a, holds, i) == count_before(b, holds, i),
        count_before(a, holds, i) <= i,
    decreases i,
{
    if i > 0 {
        lemma_count_prefix(a, b, holds, i - 1);
    }
}

proof fn lemma_count_grows<T>(items: Seq<T>, holds: spec_fn(T) -> bool, i: int, j: int)
    requires
        0 <= i < j,
        holds(items[i]),
    ensures
        count_before(items, holds, i) < count_before(items, holds, j),
    decreases j,
{
    if i < j - 1 {
        lemma_count_grows(items, holds, i, j - 1);
    }
}

pub(crate) proof fn lemma_filter_keeps<T>(items: Seq<T>, holds: spec_fn(T) -> bool)
    ensures
        keeps(items, holds, items.filter(holds)),
    decreases items.len(),
{
    reveal(Seq::filter);
    if items.len() > 0 {
        let front = items.drop_last();
        lemma_filter_keeps(front, holds);
        lemma_count_prefix(front, items, holds, front.len() as int);
        assert forall|i: int| 0 <= i < items.len() && holds(
            #[trigger] items[i],
        ) implies items.filter(holds)[count_before(items, holds, i) as int] == items[i] by {
            if i < front.len() {
                lemma_count_prefix(front, items, holds, i);
                lemma_count_grows(front, holds, i, front.len() as int);
                assert(front[i] == items[i]);
            }
        }
    }
}

/// What is kept of a longer sequence whose further items do not satisfy the condition.
proof fn lemma_keeps_prefix<T>(
    items: Seq<T>,
    all: Seq<T>,
    holds: spec_fn(T) -> bool,
    also: spec_fn(T) -> bool,
    kept: Seq<T>,
)
    requires
        items.len() <= all.len(),
        forall|i: int| 0 <= i < items.len() ==> items[i] == all[i],
        forall|i: int| items.len() <= i < all.len() ==> !holds(all[i]),
        forall|item: T| #[trigger] holds(item) == also(item),
        keeps(all, holds, kept),
    ensures
        keeps(items, also, kept),
{
    lemma_count_same(all, holds, also, all.len() as int);
    lemma_count_stays(all, also, items.len() as int, all.len() as int);
    lemma_count_prefix(items, all, also, items.len() as int);
    assert forall|i: int| 0 <= i < items.len() && also(#[trigger] items[i]) implies kept[count_before(
        items,
        also,
        i,
    ) as int] == items[i] by {
        lemma_count_prefix(items, all, also, i);
        lemma_count_same(all, holds, also, i);
        assert(holds(all[i]));
    }
}

proof fn lemma_count_same<T>(
    items: Seq<T>,
    holds: spec_fn(T) -> bool,
    also: spec_fn(T) -> bool,
    i: int,
)
    requires
        forall|item: T| #[trigger] holds(item) == also(item),
    ensures
        count_before(items, holds, i) == count_before(items, also, i),
    decreases i,
{
    if i > 0 {
        lemma_count_same(items, holds, also, i - 1);
        assert(holds(items[i - 1]) == also(items[i - 1]));
    }
}

proof fn lemma_count_stays<T>(items: Seq<T>, holds: spec_fn(T) -> bool, i: int, j: int)
    requires
        0 <= i <= j,
        forall|k: int| i <= k < j ==> !holds(items[k]),
    ensures
        count_before(items, holds, j) == count_before(items, holds, i),
    decreases j,
{
    if i < j {
        lemma_count_stays(items, holds, i, j - 1);
    }
}

/// The keys that are stored for a document, as far as they could be read.
pub open spec fn keys_of(stored: StoredPeers) -> Seq<[u8; 32]> {
    match stored {
        StoredPeers::Known(keys) => keys@,
        _ => Seq::empty(),
    }
}

/// Where the given and the stored peers stand in the sequence of all.
pub(crate) proof fn lemma_joined_with_stored(
    peers: Seq<EndpointAddr>,
    stored: StoredPeers,
    all: Seq<EndpointAddr>,
)
    requires
        peers_extended(peers, stored, all),
    ensures
        ({
            let keys = keys_of(stored);
            let is_key = |key: [u8; 32]| is_public_key(key@);
            let given = peers.len() as int;
            &&& all.len() == given + count_before(keys, is_key, keys.len() as int)
            &&& forall|i: int| 0 <= i < given ==> #[trigger] all[i] == peers[i]
            &&& forall|i: int| given <= i < all.len() ==> (#[trigger] all[i]).addrs@.len() == 0
            &&& forall|i: int|
                0 <= i < keys.len() && is_public_key((#[trigger] keys[i])@) ==> {
                    &&& count_before(keys, is_key, i) < all.len() - given
                    &&& all[given + count_before(keys, is_key, i)].id.bytes() == keys[i]@
                }
        }),
{
    let keys = keys_of(stored);
    let is_key = |key: [u8; 32]| is_public_key(key@);
    let given = peers.len() as int;
    let bytes = all.skip(given).map_values(|peer: EndpointAddr| peer.id.bytes());
    let valid = keys.filter(is_key);
    assert(stored_keys(stored) =~= valid.map_values(|key: [u8; 32]| key@)) by {
        if !(stored is Known) {
            reveal(Seq::filter);
            assert(valid =~= Seq::<[u8; 32]>::empty());
        }
    }
    lemma_filter_keeps(keys, is_key);
    assert(bytes.len() == valid.len());
    assert forall|i: int| 0 <= i < given implies #[trigger] all[i] == peers[i] by {
        assert(all.take(given)[i] == all[i]);
    }
    assert forall|i: int| 0 <= i < keys.len() && is_public_key((#[trigger] keys[i])@) implies {
        &&& count_before(keys, is_key, i) < all.len() - given
        &&& all[given + count_before(keys, is_key, i)].id.bytes() == keys[i]@
    } by {
        lemma_count_grows(keys, is_key, i, keys.len() as int);
        let k = count_before(keys, is_key, i) as int;
        assert(valid[k] == keys[i]);
        assert(bytes[k] == valid[k]@);
        assert(all.skip(given)[k] == all[given + k]);
    }
}

/// The swarm of a document is joined with the given peers, in order, and behind them with those that
/// are stored, in order, but for those whose bytes are no key. Of the given peers the addresses are
/// noted, if there are any. Nothing else happens.
pub proof fn given_and_stored_peers_are_joined(
    before: LiveModel,
    namespace: NamespaceId,
    peers: Vec<EndpointAddr>,
    stored: StoredPeers,
    now: SystemTime,
    after: LiveModel,
    step: Step,
)
    requires
        input_taken(before, Input::SyncPeers { namespace, peers, stored }, now, after, step),
    ensures
        after == before,
        step.actions@.len() == 0,
        step.next matches Next::JoinSwarm { namespace: joined, plan } && {
            let keys = keys_of(stored);
            let is_key = |key: [u8; 32]| is_public_key(key@);
            let reachable = |peer: EndpointAddr| peer.addrs@.len() != 0;
            let given = peers@.len() as int;
            &&& joined == namespace
            &&& plan.peer_ids@.len() == given + count_before(keys, is_key, keys.len() as int)
            &&& forall|i: int|
                0 <= i < given ==> #[trigger] plan.peer_ids@[i] == peers@[i].id
            &&& forall|i: int|
                0 <= i < keys.len() && is_public_key((#[trigger] keys[i])@)
                    ==> plan.peer_ids@[given + count_before(keys, is_key, i)].bytes() == keys[i]@
            &&& keeps(peers@, reachable, plan.addresses@)
        },
{
    if let Next::JoinSwarm { namespace: joined, plan } = step.next {
        let reachable = |peer: EndpointAddr| peer.addrs@.len() != 0;
        let all = choose|all: Seq<EndpointAddr>| #[trigger]
            peers_extended(peers@, stored, all) && plan.is_for(all);
        lemma_joined_with_stored(peers@, stored, all);
        assert(plan.addresses@ == all.filter(|peer: EndpointAddr| peer.addrs@.len() > 0));
        lemma_filter_keeps(all, |peer: EndpointAddr| peer.addrs@.len() > 0);
        lemma_keeps_prefix(
            peers@,
            all,
            |peer: EndpointAddr| peer.addrs@.len() > 0,
            reachable,
            plan.addresses@,
        );
    }
}

} // verus!

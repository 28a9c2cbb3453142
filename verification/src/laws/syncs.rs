//! Syncs: who runs one, and when it is over.

use n0_future::time::SystemTime;
use vstd::prelude::*;

use crate::hashes::has_namespace;
use crate::ids::{Id, NamespaceId, PublicKey};
use crate::laws::actions::{
    lemma_contains_sum, lemma_download_actions, lemma_finish_actions, lemma_is_due, lemma_settled,
};
use crate::live::{Action, AfterFlush, ConnectEnd, Input, Next, StatusQuery, Step};
use crate::messages::{
    BlobStatus, ConnectError, Event, Op, SyncEvent, SyncFinished, ToLiveActor,
};
use crate::model::{
    connect_actions, groups_settled, input_taken, join_actions, peers_joined,
    in_words, report_actions, settled_count, sync_completed, sync_event, sync_finish_taken, LiveModel,
};
use crate::sorted::{lemma_before_asymmetric, lemma_before_total};
use crate::state::{
    accept_answer, accepts_on_tie, connect_started, ended, idle_peer, may_connect, peer_state,
    ready_noted, request_answered, running_peer, sync_ended, AbortReason, AcceptOutcome, Origin,
    PeerState, States, SyncReason, SyncState,
};

verus! {

/// The input is the end of a sync of the document with the peer, started by the given side.
pub open spec fn ends_sync(
    input: Input,
    namespace: NamespaceId,
    peer: PublicKey,
    origin: Origin,
) -> bool {
    match input {
        Input::SyncConnect(Some(end)) => {
            &&& end.namespace == namespace
            &&& end.peer == peer
            &&& origin == Origin::Connect(end.reason)
        },
        Input::SyncAccept(Some(Ok(finished))) => {
            &&& finished.namespace == namespace
            &&& finished.peer == peer
            &&& origin == Origin::Accept
        },
        Input::SyncAccept(Some(Err(err))) => {
            &&& !err.is_already_syncing()
            &&& err.known_namespace() == Some(namespace)
            &&& err.known_peer() == Some(peer)
            &&& origin == Origin::Accept
        },
        _ => false,
    }
}

/// In this step a sync of the document with the peer is started: this side is told to connect, or
/// the request of the peer is allowed.
pub open spec fn starts_sync(
    input: Input,
    step: Step,
    namespace: NamespaceId,
    peer: PublicKey,
    origin: Origin,
) -> bool {
    match origin {
        Origin::Connect(reason) => step.actions@.contains(
            Action::Connect { namespace, peer, reason },
        ),
        Origin::Accept => {
            &&& input == Input::Message(Some(ToLiveActor::AcceptSyncRequest { namespace, peer }))
            &&& step.next == Next::Answer(AcceptOutcome::Allow)
        },
    }
}

/// The document is to be left.
pub open spec fn leaves(input: Input, namespace: NamespaceId) -> bool {
    input matches Input::Message(Some(ToLiveActor::Leave { namespace: left, .. })) && left
        == namespace
}

/// The peer asks for a sync while this side dials, and the peer's request is the one that counts.
pub open spec fn takes_over(
    me: PublicKey,
    input: Input,
    namespace: NamespaceId,
    peer: PublicKey,
    origin: Origin,
) -> bool {
    &&& input == Input::Message(Some(ToLiveActor::AcceptSyncRequest { namespace, peer }))
    &&& origin is Connect
    &&& accepts_on_tie(me, peer)
}

/// What joining does to the sync of one peer: nothing if one runs, and one is started if the peer
/// is among those that are joined.
proof fn lemma_joined(
    states: States,
    namespace: NamespaceId,
    peers: Seq<PublicKey>,
    now: SystemTime,
    other: NamespaceId,
    peer: PublicKey,
)
    ensures
        ({
            let joined = peers_joined(states, namespace, peers, now);
            let actions = join_actions(states, namespace, peers, now);
            let reason = SyncReason::DirectJoin;
            &&& joined.contains_key(other) <==> states.contains_key(other)
            &&& peer_state(states, other, peer).sync is Running ==> peer_state(joined, other, peer)
                == peer_state(states, other, peer)
            &&& peer_state(states, other, peer).sync is Idle ==> {
                ||| peer_state(joined, other, peer) == peer_state(states, other, peer)
                ||| {
                    &&& peer_state(joined, other, peer).sync == SyncState::Running {
                        start: now,
                        origin: Origin::Connect(reason),
                    }
                    &&& actions.contains(
                        Action::Connect { namespace: other, peer, reason },
                    )
                }
            }
        }),
    decreases peers.len(),
{
    if peers.len() > 0 {
        lemma_joined(states, namespace, peers.drop_last(), now, other, peer);
        let before = peers_joined(states, namespace, peers.drop_last(), now);
        let actions = join_actions(states, namespace, peers.drop_last(), now);
        let more = connect_actions(before, namespace, peers.last(), SyncReason::DirectJoin);
        let action = Action::Connect { namespace: other, peer, reason: SyncReason::DirectJoin };
        lemma_contains_sum(actions, more, action);
        if may_connect(before, namespace, peers.last()) && namespace == other && peers.last()
            == peer {
            assert(more[0] == action);
        }
    }
}

/// Joining dials only peers that no sync was running with.
proof fn lemma_join_dials(
    states: States,
    namespace: NamespaceId,
    peers: Seq<PublicKey>,
    now: SystemTime,
    other: NamespaceId,
    peer: PublicKey,
    reason: SyncReason,
)
    requires
        join_actions(states, namespace, peers, now).contains(
            Action::Connect { namespace: other, peer, reason },
        ),
    ensures
        reason == SyncReason::DirectJoin,
        may_connect(states, other, peer),
        peers_joined(states, namespace, peers, now).contains_key(other),
        peer_state(peers_joined(states, namespace, peers, now), other, peer).sync == (
        SyncState::Running { start: now, origin: Origin::Connect(reason) }),
    decreases peers.len(),
{
    if peers.len() > 0 {
        let before = peers_joined(states, namespace, peers.drop_last(), now);
        let actions = join_actions(states, namespace, peers.drop_last(), now);
        let more = connect_actions(before, namespace, peers.last(), SyncReason::DirectJoin);
        let action = Action::Connect { namespace: other, peer, reason };
        lemma_contains_sum(actions, more, action);
        lemma_joined(states, namespace, peers.drop_last(), now, other, peer);
        if actions.contains(action) {
            lemma_join_dials(states, namespace, peers.drop_last(), now, other, peer, reason);
        }
    }
}

/// Completing a sync starts at most another one of the same peer, and only with the action that
/// does so.
proof fn lemma_completed(
    model: LiveModel,
    namespace: NamespaceId,
    peer: PublicKey,
    resync: bool,
    now: SystemTime,
    other: NamespaceId,
    node: PublicKey,
)
    ensures
        ({
            let (completed, actions) = sync_completed(model, namespace, peer, resync, now);
            let reason = SyncReason::Resync;
            ||| peer_state(completed.states, other, node) == peer_state(model.states, other, node)
            ||| {
                &&& resync
                &&& other == namespace
                &&& node == peer
                &&& may_connect(model.states, other, node)
                &&& peer_state(completed.states, other, node).sync == SyncState::Running {
                    start: now,
                    origin: Origin::Connect(reason),
                }
                &&& actions.contains(Action::Connect { namespace: other, peer: node, reason })
            }
        }),
{
    let (completed, actions) = sync_completed(model, namespace, peer, resync, now);
    let waiting = has_namespace(model.queued, namespace);
    let states = ready_noted(model.states, namespace, waiting);
    assert(peer_state(states, other, node) == peer_state(model.states, other, node));
    let action = Action::Connect { namespace, peer, reason: SyncReason::Resync };
    if resync && may_connect(states, namespace, peer) {
        let more = connect_actions(states, namespace, peer, SyncReason::Resync);
        assert(more[0] == action);
        assert(actions.last() == action);
        assert(actions.contains(action));
    }
}

/// The sync of the document with the peer that is running is the one whose end this is.
spec fn own_end(states: States, input: Input, namespace: NamespaceId, peer: PublicKey) -> bool {
    peer_state(states, namespace, peer).sync matches SyncState::Running { origin, .. } && ends_sync(
        input,
        namespace,
        peer,
        origin,
    )
}

/// The four ways in which a step may treat the sync of a document with a peer: leave it alone, end
/// it, dial the peer, or accept the peer's request.
spec fn treats_sync(
    before: LiveModel,
    input: Input,
    now: SystemTime,
    after: LiveModel,
    step: Step,
    namespace: NamespaceId,
    peer: PublicKey,
) -> bool {
    let was = peer_state(before.states, namespace, peer).sync;
    let is = peer_state(after.states, namespace, peer).sync;
    let over = own_end(before.states, input, namespace, peer);
    ||| is == was && !over
    ||| is is Idle && (over || leaves(input, namespace))
    ||| {
        &&& was is Idle || over
        &&& is matches SyncState::Running { origin: Origin::Connect(reason), .. }
        &&& over ==> reason == SyncReason::Resync
        &&& step.actions@.contains(Action::Connect { namespace, peer, reason })
    }
    ||| {
        &&& is == SyncState::Running { start: now, origin: Origin::Accept }
        &&& input == Input::Message(Some(ToLiveActor::AcceptSyncRequest { namespace, peer }))
        &&& step.next == Next::Answer(AcceptOutcome::Allow)
        &&& was is Idle || takes_over(before.me, input, namespace, peer, was->origin)
    }
}

proof fn lemma_sync_finish(
    before: LiveModel,
    namespace: NamespaceId,
    peer: PublicKey,
    origin: Origin,
    result: Result<SyncFinished, String>,
    now: SystemTime,
    after: LiveModel,
    step: Step,
    other: NamespaceId,
    node: PublicKey,
)
    requires
        sync_finish_taken(before, namespace, peer, origin, result, now, after, step),
    ensures
        ({
            let was = peer_state(before.states, other, node).sync;
            let is = peer_state(after.states, other, node).sync;
            let over = other == namespace && node == peer && ended(
                before.states,
                namespace,
                peer,
                origin,
            ) is Some;
            ||| is == was && !over
            ||| is is Idle && over
            ||| {
                &&& over
                &&& is matches SyncState::Running { origin: Origin::Connect(reason), .. }
                &&& reason == SyncReason::Resync
                &&& step.actions@.contains(Action::Connect { namespace: other, peer: node, reason })
            }
        }),
{
    if let Some((started, resync)) = ended(before.states, namespace, peer, origin) {
        let idle = LiveModel {
            states: sync_ended(before.states, namespace, peer, origin),
            ..before
        };
        if !(result is Ok && has_namespace(before.missing, namespace)) {
            lemma_completed(idle, namespace, peer, resync, now, other, node);
            let event = sync_event(peer, origin, started, now, result);
            let told = report_actions(before.states, namespace, peer, result).push(
                Action::Emit { namespace, event },
            );
            let more = sync_completed(idle, namespace, peer, resync, now).1;
            let action = Action::Connect {
                namespace: other,
                peer: node,
                reason: SyncReason::Resync,
            };
            lemma_contains_sum(told, more, action);
        }
    }
}

proof fn lemma_step(
    before: LiveModel,
    input: Input,
    now: SystemTime,
    after: LiveModel,
    step: Step,
    namespace: NamespaceId,
    peer: PublicKey,
)
    requires
        input_taken(before, input, now, after, step),
    ensures
        treats_sync(before, input, now, after, step, namespace, peer),
{
    match input {
        Input::SyncConnect(Some(end)) => {
            lemma_sync_finish(
                before,
                end.namespace,
                end.peer,
                Origin::Connect(end.reason),
                in_words(end.result),
                now,
                after,
                step,
                namespace,
                peer,
            );
        },
        Input::SyncAccept(Some(Ok(finished))) => {
            lemma_sync_finish(
                before,
                finished.namespace,
                finished.peer,
                Origin::Accept,
                Ok(finished),
                now,
                after,
                step,
                namespace,
                peer,
            );
        },
        Input::SyncAccept(Some(Err(err))) => {
            if !err.is_already_syncing() && err.known_peer() is Some
                && err.known_namespace() is Some {
                lemma_sync_finish(
                    before,
                    err.known_namespace()->0,
                    err.known_peer()->0,
                    Origin::Accept,
                    Err(err.text()),
                    now,
                    after,
                    step,
                    namespace,
                    peer,
                );
            }
        },
        Input::Joined { namespace: joined, peer_ids, joined: true } => {
            lemma_joined(before.states, joined, peer_ids@, now, namespace, peer);
        },
        Input::Statuses { query, statuses } => {
            let n = settled_count(query.groups(), statuses@);
            lemma_settled(before, query.groups(), statuses@, n);
            let (settled, actions) = groups_settled(before, query.groups(), statuses@, n);
            if let AfterFlush::FinishSync { namespace: synced, peer: with, resync } =
                query.purpose() {
                lemma_completed(settled, synced, with, resync, now, namespace, peer);
                let more = sync_completed(settled, synced, with, resync, now).1;
                let action = Action::Connect { namespace, peer, reason: SyncReason::Resync };
                lemma_contains_sum(actions, more, action);
            }
        },
        Input::News { namespace: about, from, news } => {
            let reason = SyncReason::SyncReport;
            if news is Updated && may_connect(before.states, about, from) {
                assert(step.actions@[0] == Action::Connect { namespace: about, peer: from, reason });
            }
        },
        Input::Message(Some(ToLiveActor::NeighborUp { namespace: about, peer: from })) => {
            let reason = SyncReason::NewNeighbor;
            if may_connect(before.states, about, from) {
                assert(step.actions@[0] == Action::Connect { namespace: about, peer: from, reason });
            }
        },
        _ => {},
    }
}

proof fn lemma_joining_keeps_documents(
    states: States,
    namespace: NamespaceId,
    peers: Seq<PublicKey>,
    now: SystemTime,
)
    ensures
        peers_joined(states, namespace, peers, now).dom() == states.dom(),
    decreases peers.len(),
{
    if peers.len() > 0 {
        lemma_joining_keeps_documents(states, namespace, peers.drop_last(), now);
        assert(peers_joined(states, namespace, peers, now).dom() =~= states.dom());
    }
}

/// Documents start to be synced when they were opened, and stop when they are left.
pub proof fn documents_are_synced_from_opening_to_leaving(
    before: LiveModel,
    input: Input,
    now: SystemTime,
    after: LiveModel,
    step: Step,
    namespace: NamespaceId,
)
    requires
        input_taken(before, input, now, after, step),
    ensures
        after.states.contains_key(namespace) <==> {
            ||| before.states.contains_key(namespace) && !leaves(input, namespace)
            ||| input matches Input::Opened { namespace: opened, opened: true, .. } && opened
                == namespace
        },
{
    match input {
        Input::Joined { namespace: joined, peer_ids, joined: true } => {
            lemma_joining_keeps_documents(before.states, joined, peer_ids@, now);
        },
        Input::Statuses { query, statuses } => {
            let n = settled_count(query.groups(), statuses@);
            lemma_settled(before, query.groups(), statuses@, n);
        },
        _ => {},
    }
}

/// A sync that is noted as running was started in this step, or was running before and has not
/// ended now.
pub proof fn a_running_sync_was_started_and_has_not_ended(
    before: LiveModel,
    input: Input,
    now: SystemTime,
    after: LiveModel,
    step: Step,
    namespace: NamespaceId,
    peer: PublicKey,
    start: SystemTime,
    origin: Origin,
)
    requires
        input_taken(before, input, now, after, step),
        peer_state(after.states, namespace, peer).sync == (SyncState::Running { start, origin }),
    ensures
        starts_sync(input, step, namespace, peer, origin) || (peer_state(
            before.states,
            namespace,
            peer,
        ).sync == (SyncState::Running { start, origin }) && !ends_sync(
            input,
            namespace,
            peer,
            origin,
        )),
{
    lemma_step(before, input, now, after, step, namespace, peer);
}

/// A running sync is left alone by everything but its own end, the end of the document's being
/// synced, and a request of the peer that comes while this side dials and counts for more.
///
/// In particular the end of a dial that a request of the peer has taken over changes nothing.
pub proof fn a_running_sync_is_left_alone(
    before: LiveModel,
    input: Input,
    now: SystemTime,
    after: LiveModel,
    step: Step,
    namespace: NamespaceId,
    peer: PublicKey,
    start: SystemTime,
    origin: Origin,
)
    requires
        input_taken(before, input, now, after, step),
        peer_state(before.states, namespace, peer).sync == (SyncState::Running { start, origin }),
        !ends_sync(input, namespace, peer, origin),
        !leaves(input, namespace),
        !takes_over(before.me, input, namespace, peer, origin),
    ensures
        peer_state(after.states, namespace, peer).sync == (SyncState::Running { start, origin }),
{
    lemma_step(before, input, now, after, step, namespace, peer);
}

/// However a sync ends, the peer can be synced with again: it is idle, or the next sync with it
/// has been started already, because news had been reported in the meantime.
pub proof fn the_end_of_a_sync_frees_the_peer(
    before: LiveModel,
    input: Input,
    now: SystemTime,
    after: LiveModel,
    step: Step,
    namespace: NamespaceId,
    peer: PublicKey,
    start: SystemTime,
    origin: Origin,
)
    requires
        input_taken(before, input, now, after, step),
        peer_state(before.states, namespace, peer).sync == (SyncState::Running { start, origin }),
        ends_sync(input, namespace, peer, origin),
    ensures
        may_connect(after.states, namespace, peer) || {
            let next = Origin::Connect(SyncReason::Resync);
            &&& peer_state(after.states, namespace, peer).sync matches SyncState::Running {
                origin: running,
                ..
            }
            &&& running == next
            &&& starts_sync(input, step, namespace, peer, next)
        },
{
    lemma_step(before, input, now, after, step, namespace, peer);
    documents_are_synced_from_opening_to_leaving(before, input, now, after, step, namespace);
}

/// A dial is started only where no sync is running, or where the one that was has just ended, and
/// it is noted as running.
pub proof fn a_dial_owns_the_peer(
    before: LiveModel,
    input: Input,
    now: SystemTime,
    after: LiveModel,
    step: Step,
    namespace: NamespaceId,
    peer: PublicKey,
    reason: SyncReason,
)
    requires
        input_taken(before, input, now, after, step),
        step.actions@.contains(Action::Connect { namespace, peer, reason }),
    ensures
        peer_state(after.states, namespace, peer).sync == (SyncState::Running {
            start: now,
            origin: Origin::Connect(reason),
        }),
        peer_state(before.states, namespace, peer).sync matches SyncState::Running {
            origin,
            ..
        } ==> ends_sync(input, namespace, peer, origin),
        after.states.contains_key(namespace),
{
    let action = Action::Connect { namespace, peer, reason };
    match input {
        Input::SyncConnect(Some(end)) => {
            lemma_finish_actions(
                before,
                end.namespace,
                end.peer,
                Origin::Connect(end.reason),
                in_words(end.result),
                now,
                after,
                step,
                action,
            );
        },
        Input::SyncAccept(Some(Ok(finished))) => {
            lemma_finish_actions(
                before,
                finished.namespace,
                finished.peer,
                Origin::Accept,
                Ok(finished),
                now,
                after,
                step,
                action,
            );
        },
        Input::SyncAccept(Some(Err(err))) => {
            if !err.is_already_syncing() && err.known_peer() is Some
                && err.known_namespace() is Some {
                lemma_finish_actions(
                    before,
                    err.known_namespace()->0,
                    err.known_peer()->0,
                    Origin::Accept,
                    Err(err.text()),
                    now,
                    after,
                    step,
                    action,
                );
            }
        },
        Input::Joined { namespace: joined, peer_ids, joined: true } => {
            lemma_join_dials(before.states, joined, peer_ids@, now, namespace, peer, reason);
        },
        Input::Statuses { query, statuses } => {
            let n = settled_count(query.groups(), statuses@);
            lemma_settled(before, query.groups(), statuses@, n);
            let (settled, actions) = groups_settled(before, query.groups(), statuses@, n);
            if let AfterFlush::FinishSync { namespace: synced, peer: with, resync } =
                query.purpose() {
                let more = sync_completed(settled, synced, with, resync, now).1;
                lemma_contains_sum(actions, more, action);
            }
        },
        Input::Download(Some(end)) => {
            lemma_download_actions(before, end.hash, end.success, after, step.actions@, action);
        },
        _ => {},
    }
}

/// Of two peers that dial each other at the same time, each with the other's request before it,
/// one accepts, and the other turns the request down because of the sync that is running.
pub proof fn one_of_two_dials_is_accepted(
    here: States,
    there: States,
    me: PublicKey,
    peer: PublicKey,
    namespace: NamespaceId,
)
    requires
        me != peer,
        here.contains_key(namespace),
        there.contains_key(namespace),
        peer_state(here, namespace, peer).sync matches SyncState::Running { origin, .. } && origin
            is Connect,
        peer_state(there, namespace, me).sync matches SyncState::Running { origin, .. } && origin
            is Connect,
    ensures
        accept_answer(here, me, namespace, peer) is Allow <==> !(accept_answer(
            there,
            peer,
            namespace,
            me,
        ) is Allow),
        accept_answer(here, me, namespace, peer) is Allow || accept_answer(
            here,
            me,
            namespace,
            peer,
        ) == AcceptOutcome::Reject(AbortReason::AlreadySyncing),
        accept_answer(there, peer, namespace, me) is Allow || accept_answer(
            there,
            peer,
            namespace,
            me,
        ) == AcceptOutcome::Reject(AbortReason::AlreadySyncing),
{
    me.bytes_identify(peer);
    peer.bytes_identify(me);
    lemma_before_total(me.bytes(), peer.bytes());
    if accepts_on_tie(me, peer) {
        lemma_before_asymmetric(peer.bytes(), me.bytes());
    }
    if accepts_on_tie(peer, me) {
        lemma_before_asymmetric(me.bytes(), peer.bytes());
    }
}

/// While a sync with a peer is running that this side accepted, no other one is started, from
/// either side, and news are kept for later.
pub proof fn an_accepted_sync_runs_alone(
    states: States,
    me: PublicKey,
    namespace: NamespaceId,
    peer: PublicKey,
    start: SystemTime,
    reason: SyncReason,
    now: SystemTime,
)
    requires
        states.contains_key(namespace),
        peer_state(states, namespace, peer).sync == (SyncState::Running {
            start,
            origin: Origin::Accept,
        }),
    ensures
        accept_answer(states, me, namespace, peer) == AcceptOutcome::Reject(
            AbortReason::AlreadySyncing,
        ),
        request_answered(states, me, namespace, peer, now) == states,
        !may_connect(states, namespace, peer),
        peer_state(
            connect_started(states, namespace, peer, reason, now),
            namespace,
            peer,
        ) == (PeerState {
            sync: SyncState::Running { start, origin: Origin::Accept },
            resync_requested: reason == SyncReason::SyncReport || peer_state(
                states,
                namespace,
                peer,
            ).resync_requested,
        }),
{
}

/// Nothing is broadcast for a document that is not synced.
pub proof fn only_synced_documents_are_broadcast(
    before: LiveModel,
    input: Input,
    now: SystemTime,
    after: LiveModel,
    step: Step,
    namespace: NamespaceId,
    op: Op,
)
    requires
        input_taken(before, input, now, after, step),
        step.actions@.contains(Action::Broadcast { namespace, op }) || step.actions@.contains(
            Action::BroadcastNeighbors { namespace, op },
        ),
    ensures
        before.states.contains_key(namespace),
{
    let action = if step.actions@.contains(Action::Broadcast { namespace, op }) {
        Action::Broadcast { namespace, op }
    } else {
        Action::BroadcastNeighbors { namespace, op }
    };
    lemma_is_due(before, input, now, after, step, action);
}

/// News that were reported while a sync was running lead to another sync when it ends, however it
/// does: at once, or once the content that is asked for first has been considered.
pub proof fn reported_news_lead_to_another_sync(
    before: LiveModel,
    input: Input,
    now: SystemTime,
    after: LiveModel,
    step: Step,
    namespace: NamespaceId,
    peer: PublicKey,
    start: SystemTime,
    origin: Origin,
)
    requires
        input_taken(before, input, now, after, step),
        ends_sync(input, namespace, peer, origin),
        peer_state(before.states, namespace, peer) == (PeerState {
            sync: SyncState::Running { start, origin },
            resync_requested: true,
        }),
    ensures
        starts_sync(input, step, namespace, peer, Origin::Connect(SyncReason::Resync)) || (
        step.next matches Next::QueryStatuses(query) && query.purpose() == (
        AfterFlush::FinishSync { namespace, peer, resync: true })),
{
    let idle = LiveModel {
        states: sync_ended(before.states, namespace, peer, origin),
        ..before
    };
    let waiting = has_namespace(before.queued, namespace);
    assert(may_connect(ready_noted(idle.states, namespace, waiting), namespace, peer));
    if step.next is Nothing {
        let action = Action::Connect { namespace, peer, reason: SyncReason::Resync };
        assert(step.actions@.last() == action);
        assert(step.actions@.contains(action));
    }
}

/// A sync that was put off until content has been considered is started then, if none with the
/// peer is running and the document is still synced.
pub proof fn a_sync_that_was_put_off_is_started(
    before: LiveModel,
    query: StatusQuery,
    statuses: Vec<BlobStatus>,
    now: SystemTime,
    after: LiveModel,
    step: Step,
    namespace: NamespaceId,
    peer: PublicKey,
)
    requires
        input_taken(before, Input::Statuses { query, statuses }, now, after, step),
        query.purpose() == (AfterFlush::FinishSync { namespace, peer, resync: true }),
        may_connect(before.states, namespace, peer),
    ensures
        starts_sync(
            Input::Statuses { query, statuses },
            step,
            namespace,
            peer,
            Origin::Connect(SyncReason::Resync),
        ),
{
    let n = settled_count(query.groups(), statuses@);
    lemma_settled(before, query.groups(), statuses@, n);
    let settled = groups_settled(before, query.groups(), statuses@, n).0;
    let waiting = has_namespace(settled.queued, namespace);
    assert(may_connect(ready_noted(before.states, namespace, waiting), namespace, peer));
    let action = Action::Connect { namespace, peer, reason: SyncReason::Resync };
    assert(step.actions@.last() == action);
    assert(step.actions@.contains(action));
}

/// A dial that failed, for whatever reason, can be repeated: subscribers are told of it once, with
/// the error, the peer is idle, and the next sync with it that is asked for from this side is
/// started. A request that the peer turned down because it was already syncing is no exception.
pub proof fn a_dial_that_failed_can_be_repeated(
    before: LiveModel,
    namespace: NamespaceId,
    peer: PublicKey,
    reason: SyncReason,
    start: SystemTime,
    error: ConnectError,
    now: SystemTime,
    after: LiveModel,
    step: Step,
    again: SyncReason,
)
    requires
        input_taken(
            before,
            Input::SyncConnect(
                Some(ConnectEnd { namespace, peer, reason, result: Err(error) }),
            ),
            now,
            after,
            step,
        ),
        peer_state(before.states, namespace, peer) == running_peer(
            start,
            Origin::Connect(reason),
        ),
    ensures
        step.next is Nothing,
        step.actions@.len() > 0,
        step.actions@[0] == (Action::Emit {
            namespace,
            event: Event::SyncFinished(
                SyncEvent {
                    peer,
                    origin: Origin::Connect(reason),
                    finished: now,
                    started: start,
                    result: Err(error.text()),
                },
            ),
        }),
        forall|i: int|
            0 < i < step.actions@.len() ==> #[trigger] step.actions@[i] == (Action::Emit {
                namespace,
                event: Event::PendingContentReady,
            }),
        peer_state(after.states, namespace, peer) == idle_peer(),
        connect_actions(after.states, namespace, peer, again) == seq![
            Action::Connect { namespace, peer, reason: again },
        ],
{
}

} // verus!

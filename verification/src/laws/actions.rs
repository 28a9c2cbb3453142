//! Which actions a step may hold.

use n0_future::time::SystemTime;
use vstd::prelude::*;

use crate::hashes::{has_namespace, is_last_hash, lemma_filter_distinct, namespaces_of};
use crate::ids::{ContentHash, NamespaceId, PublicKey};
use crate::live::{Action, AfterFlush, DownloadCandidate, HashGroup, Input, Step};
use crate::messages::{BlobStatus, Event, SyncFinished};
use crate::model::{
    connect_actions, content_ready_actions, content_ready_for_all, download_end_taken,
    download_ended, enumerates, group_settled, groups_settled, in_words, input_taken, join_actions,
    peers_joined, ready_actions, report_actions, settled_count, stored_actions, sync_completed,
    sync_event, sync_finish_taken, LiveModel,
};
use crate::state::{
    ended, peer_state, ready_due, sync_ended, Origin, States, SyncReason, SyncState,
};

verus! {

/// What is in a sum is in one of its parts.
pub(crate) proof fn lemma_contains_sum<T>(a: Seq<T>, b: Seq<T>, item: T)
    ensures
        (a + b).contains(item) <==> a.contains(item) || b.contains(item),
{
    if a.contains(item) {
        let i = a.index_of(item);
        assert((a + b)[i] == item);
    }
    if b.contains(item) {
        let i = b.index_of(item);
        assert((a + b)[a.len() + i] == item);
    }
    if (a + b).contains(item) {
        let i = (a + b).index_of(item);
        if i < a.len() {
            assert(a[i] == item);
        } else {
            assert(b[i - a.len()] == item);
        }
    }
}

/// Content is announced: to subscribers, and to the neighbors of a document that is synced.
pub(crate) open spec fn announces_content(states: States, action: Action) -> bool {
    match action {
        Action::Emit { event: Event::ContentReady { .. }, .. } => true,
        Action::BroadcastNeighbors { namespace, .. } => states.contains_key(namespace),
        _ => false,
    }
}

pub(crate) proof fn lemma_stored_actions(
    model: LiveModel,
    hash: ContentHash,
    candidates: Seq<DownloadCandidate>,
    action: Action,
)
    requires
        stored_actions(model, hash, candidates).contains(action),
    ensures
        announces_content(model.states, action),
    decreases candidates.len(),
{
    if candidates.len() > 0 {
        let last = candidates.len() - 1;
        let done = stored_actions(model, hash, candidates.drop_last());
        let more = content_ready_actions(model.states, candidates[last].namespace, hash);
        lemma_contains_sum(done, more, action);
        lemma_contains_sum(done, Seq::empty(), action);
        if done.contains(action) {
            lemma_stored_actions(model, hash, candidates.drop_last(), action);
        }
    }
}

pub(crate) proof fn lemma_ready_for_all(
    states: States,
    namespaces: Seq<NamespaceId>,
    hash: ContentHash,
    action: Action,
)
    requires
        content_ready_for_all(states, namespaces, hash).contains(action),
    ensures
        announces_content(states, action),
    decreases namespaces.len(),
{
    if namespaces.len() > 0 {
        let done = content_ready_for_all(states, namespaces.drop_last(), hash);
        let more = content_ready_actions(states, namespaces.last(), hash);
        lemma_contains_sum(done, more, action);
        if done.contains(action) {
            lemma_ready_for_all(states, namespaces.drop_last(), hash, action);
        }
    }
}

/// Settling downloads leaves everything about syncs as it is, and does nothing but announce content
/// and download it.
pub(crate) proof fn lemma_settled(
    model: LiveModel,
    groups: Seq<HashGroup>,
    statuses: Seq<BlobStatus>,
    n: nat,
)
    ensures
        groups_settled(model, groups, statuses, n).0.states == model.states,
        groups_settled(model, groups, statuses, n).0.me == model.me,
        forall|action: Action| #[trigger]
            groups_settled(model, groups, statuses, n).1.contains(action) ==> announces_content(
                model.states,
                action,
            ) || action is Download,
    decreases n,
{
    if n > 0 {
        lemma_settled(model, groups, statuses, (n - 1) as nat);
        let (before, actions) = groups_settled(model, groups, statuses, (n - 1) as nat);
        let group = groups[n - 1];
        let (after, more) = group_settled(before, group.hash, group.candidates@, statuses[n - 1]);
        assert forall|action: Action| #[trigger]
            groups_settled(model, groups, statuses, n).1.contains(
                action,
            ) implies announces_content(model.states, action) || action is Download by {
            lemma_contains_sum(actions, more, action);
            if more.contains(action) && statuses[n - 1] is Complete {
                lemma_stored_actions(before, group.hash, group.candidates@, action);
            }
        }
    }
}

/// The end of the last download is all that is announced at the end of a sync, and another sync
/// all that is started.
pub(crate) proof fn lemma_completed_actions(
    model: LiveModel,
    namespace: NamespaceId,
    peer: PublicKey,
    resync: bool,
    now: SystemTime,
    action: Action,
)
    requires
        sync_completed(model, namespace, peer, resync, now).1.contains(action),
    ensures
        action == (Action::Emit { namespace, event: Event::PendingContentReady }) || action == (
        Action::Connect { namespace, peer, reason: SyncReason::Resync }),
{
}

/// The end of a download announces content, and the end of the last download where that is due.
pub(crate) proof fn lemma_download_actions(
    before: LiveModel,
    hash: ContentHash,
    success: bool,
    after: LiveModel,
    actions: Seq<Action>,
    action: Action,
)
    requires
        download_end_taken(before, hash, success, after, actions),
        actions.contains(action),
    ensures
        announces_content(before.states, action) || (action matches Action::Emit {
            namespace,
            event: Event::PendingContentReady,
        } && ready_due(before.states, namespace) && is_last_hash(before.queued, hash, namespace)),
{
    let waiting = choose|waiting: Seq<NamespaceId>|
        {
            &&& #[trigger] enumerates(waiting, namespaces_of(before.queued, hash))
            &&& (after, actions) == download_ended(before, hash, success, waiting)
        };
    let is_last = |namespace: NamespaceId| is_last_hash(before.queued, hash, namespace);
    let is_due = |namespace: NamespaceId| ready_due(before.states, namespace);
    let completed = waiting.filter(is_last);
    let due = completed.filter(is_due);
    let announced = content_ready_for_all(before.states, waiting, hash);
    let ready = ready_actions(before.states, completed);
    lemma_contains_sum(announced, ready, action);
    if success && announced.contains(action) {
        lemma_ready_for_all(before.states, waiting, hash, action);
    } else {
        let i = ready.index_of(action);
        assert(ready[i] == action);
        lemma_filter_distinct(waiting, is_last);
        lemma_filter_distinct(completed, is_due);
        assert(due.contains(due[i]));
    }
}

/// Joining does nothing but dial.
pub(crate) proof fn lemma_join_only_dials(
    states: States,
    namespace: NamespaceId,
    peers: Seq<PublicKey>,
    now: SystemTime,
    action: Action,
)
    requires
        join_actions(states, namespace, peers, now).contains(action),
    ensures
        action is Connect,
    decreases peers.len(),
{
    if peers.len() > 0 {
        let before = peers_joined(states, namespace, peers.drop_last(), now);
        let actions = join_actions(states, namespace, peers.drop_last(), now);
        let more = connect_actions(before, namespace, peers.last(), SyncReason::DirectJoin);
        lemma_contains_sum(actions, more, action);
        if actions.contains(action) {
            lemma_join_only_dials(states, namespace, peers.drop_last(), now, action);
        }
    }
}

/// What the end of a sync may lead to: a report, the event, the announcement that nothing is
/// pending, and another sync.
pub(crate) proof fn lemma_finish_actions(
    before: LiveModel,
    namespace: NamespaceId,
    peer: PublicKey,
    origin: Origin,
    result: Result<SyncFinished, String>,
    now: SystemTime,
    after: LiveModel,
    step: Step,
    action: Action,
)
    requires
        sync_finish_taken(before, namespace, peer, origin, result, now, after, step),
        step.actions@.contains(action),
    ensures
        match action {
            Action::RegisterUsefulPeer { .. } => true,
            Action::BroadcastNeighbors { namespace: about, .. } => {
                &&& about == namespace
                &&& before.states.contains_key(namespace)
            },
            Action::Emit { namespace: about, event } => {
                &&& about == namespace
                &&& event is SyncFinished || event is PendingContentReady
                &&& ended(before.states, namespace, peer, origin) is Some
                &&& event is PendingContentReady ==> {
                    &&& !has_namespace(before.queued, namespace)
                    &&& !(result is Ok && has_namespace(before.missing, namespace))
                }
            },
            Action::Connect { .. } => {
                &&& action == Action::Connect { namespace, peer, reason: SyncReason::Resync }
                &&& ended(before.states, namespace, peer, origin) is Some
                &&& after.states.contains_key(namespace)
                &&& peer_state(after.states, namespace, peer).sync == SyncState::Running {
                    start: now,
                    origin: Origin::Connect(SyncReason::Resync),
                }
            },
            _ => false,
        },
{
    let report = report_actions(before.states, namespace, peer, result);
    if let Some((started, resync)) = ended(before.states, namespace, peer, origin) {
        let idle = LiveModel {
            states: sync_ended(before.states, namespace, peer, origin),
            ..before
        };
        let event = sync_event(peer, origin, started, now, result);
        let told = report.push(Action::Emit { namespace, event });
        let more = sync_completed(idle, namespace, peer, resync, now).1;
        lemma_contains_sum(told, more, action);
        assert(told.contains(action) ==> report.contains(action) || action == Action::Emit {
            namespace,
            event,
        });
    }
}

/// What an input may lead to, of the actions that are bound to a condition.
pub(crate) open spec fn is_due(
    before: LiveModel,
    input: Input,
    action: Action,
) -> bool {
    match action {
        Action::Broadcast { namespace, .. } => before.states.contains_key(namespace),
        Action::BroadcastNeighbors { namespace, .. } => before.states.contains_key(namespace),
        Action::Download { .. } => input matches Input::Statuses { query, statuses }
            && groups_settled(
            before,
            query.groups(),
            statuses@,
            settled_count(query.groups(), statuses@),
        ).1.contains(action),
        Action::Emit { namespace, event: Event::PendingContentReady } => match input {
            Input::SyncConnect(Some(end)) => {
                &&& end.namespace == namespace
                &&& !has_namespace(before.queued, namespace)
            },
            Input::SyncAccept(Some(Ok(finished))) => {
                &&& finished.namespace == namespace
                &&& !has_namespace(before.queued, namespace)
            },
            Input::SyncAccept(Some(Err(err))) => {
                &&& err.known_namespace() == Some(namespace)
                &&& !has_namespace(before.queued, namespace)
            },
            Input::Statuses { query, statuses } => {
                &&& query.purpose() matches AfterFlush::FinishSync { namespace: synced, .. }
                &&& synced == namespace
                &&& !has_namespace(
                    groups_settled(
                        before,
                        query.groups(),
                        statuses@,
                        settled_count(query.groups(), statuses@),
                    ).0.queued,
                    namespace,
                )
            },
            Input::Download(Some(end)) => {
                &&& ready_due(before.states, namespace)
                &&& is_last_hash(before.queued, end.hash, namespace)
            },
            _ => false,
        },
        _ => true,
    }
}

pub(crate) proof fn lemma_is_due(
    before: LiveModel,
    input: Input,
    now: SystemTime,
    after: LiveModel,
    step: Step,
    action: Action,
)
    requires
        input_taken(before, input, now, after, step),
        step.actions@.contains(action),
    ensures
        is_due(before, input, action),
{
    match input {
        Input::SyncConnect(Some(end)) => {
            lemma_finish_actions(
                before,
                end.namespace,
                end.peer,
                Origin::Connect(end.reason),
                in_words(end.result),
                now,
                after,
                step,
                action,
            );
        },
        Input::SyncAccept(Some(Ok(finished))) => {
            lemma_finish_actions(
                before,
                finished.namespace,
                finished.peer,
                Origin::Accept,
                Ok(finished),
                now,
                after,
                step,
                action,
            );
        },
        Input::SyncAccept(Some(Err(err))) => {
            if !err.is_already_syncing() && err.known_peer() is Some
                && err.known_namespace() is Some {
                lemma_finish_actions(
                    before,
                    err.known_namespace()->0,
                    err.known_peer()->0,
                    Origin::Accept,
                    Err(err.text()),
                    now,
                    after,
                    step,
                    action,
                );
            }
        },
        Input::Joined { namespace, peer_ids, joined: true } => {
            lemma_join_only_dials(before.states, namespace, peer_ids@, now, action);
        },
        Input::Statuses { query, statuses } => {
            let n = settled_count(query.groups(), statuses@);
            lemma_settled(before, query.groups(), statuses@, n);
            let (settled, actions) = groups_settled(before, query.groups(), statuses@, n);
            if let AfterFlush::FinishSync { namespace, peer, resync } = query.purpose() {
                let more = sync_completed(settled, namespace, peer, resync, now).1;
                lemma_contains_sum(actions, more, action);
            }
        },
        Input::Download(Some(end)) => {
            lemma_download_actions(before, end.hash, end.success, after, step.actions@, action);
        },
        _ => {},
    }
}

} // verus!

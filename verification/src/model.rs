//! The engine as a mathematical object: what it knows, and how each event changes that.

use n0_future::time::SystemTime;
use vstd::prelude::*;

use crate::hashes::{
    has_hash, has_namespace, hashes_of, is_last_hash, namespaces_of, pairs_with, without_hash,
    Pairs,
};
use crate::ids::{ContentHash, Id, InvalidPublicKey, NamespaceId, PublicKey};
use crate::live::{
    Action, AfterFlush, DownloadCandidate, HashGroup, Input, LiveError, News, Next, StatusQuery,
    Step, StoredPeers, MAX_REPLICA_EVENT_BATCH,
};
use crate::messages::{
    AcceptError, BlobStatus, ConnectError, EndpointAddr, Event, Op, ReplicaEvent, SyncDetails,
    SyncEvent, SyncFinished, SyncReport, ToLiveActor,
};
use crate::outside::is_public_key;
use crate::state::{
    accept_answer, connect_started, ended, may_connect, namespace_opened, ready_due, ready_noted,
    request_answered, sync_ended, NamespaceModel, Origin, States, SyncReason,
};
use crate::subscribers::{senders_of, SubscriberLists};

verus! {

/// What the engine knows.
#[verifier::ext_equal]
pub struct LiveModel {
    /// This side's own identifier.
    pub me: PublicKey,
    /// The documents that are synced.
    pub states: States,
    /// Content that is wanted and still to be asked for: an entry came from a peer that does not
    /// have all of it, or its download failed. It is missing until it is found or the document is
    /// queued for its download. An entry that comes while the document is queued makes its content
    /// missing all the same.
    pub missing: Pairs,
    /// Content that is being downloaded, with the documents that wait for it.
    pub queued: Pairs,
    /// Peers known to have some content.
    pub providers: Set<(ContentHash, PublicKey)>,
    /// Downloads to be considered, in the order in which they came up.
    pub pending: Seq<DownloadCandidate>,
    /// Who is told of the events of which document.
    pub subscribers: SubscriberLists,
}

/// The sequence holds the items of the set, each once.
pub open spec fn enumerates<T>(items: Seq<T>, set: Set<T>) -> bool {
    items.no_duplicates() && items.to_set() == set
}

/// The actions that start a sync from this side, if it may run.
pub open spec fn connect_actions(
    states: States,
    namespace: NamespaceId,
    peer: PublicKey,
    reason: SyncReason,
) -> Seq<Action> {
    if may_connect(states, namespace, peer) {
        seq![Action::Connect { namespace, peer, reason }]
    } else {
        Seq::empty()
    }
}

/// The actions that start a sync with each of the peers.
pub open spec fn join_actions(
    states: States,
    namespace: NamespaceId,
    peers: Seq<PublicKey>,
    now: SystemTime,
) -> Seq<Action>
    decreases peers.len(),
{
    if peers.len() == 0 {
        Seq::empty()
    } else {
        join_actions(states, namespace, peers.drop_last(), now) + connect_actions(
            peers_joined(states, namespace, peers.drop_last(), now),
            namespace,
            peers.last(),
            SyncReason::DirectJoin,
        )
    }
}

/// The states after a sync was asked for with each of the peers.
pub open spec fn peers_joined(
    states: States,
    namespace: NamespaceId,
    peers: Seq<PublicKey>,
    now: SystemTime,
) -> States
    decreases peers.len(),
{
    if peers.len() == 0 {
        states
    } else {
        connect_started(
            peers_joined(states, namespace, peers.drop_last(), now),
            namespace,
            peers.last(),
            SyncReason::DirectJoin,
            now,
        )
    }
}

/// The actions that send an operation to the neighbors of a document, while it is synced.
pub open spec fn broadcast_actions(states: States, namespace: NamespaceId, op: Op) -> Seq<Action> {
    if states.contains_key(namespace) {
        seq![Action::BroadcastNeighbors { namespace, op }]
    } else {
        Seq::empty()
    }
}

/// The actions that announce that content is available: to the subscribers of the document, and,
/// while it is synced, to its neighbors.
pub open spec fn content_ready_actions(
    states: States,
    namespace: NamespaceId,
    hash: ContentHash,
) -> Seq<Action> {
    seq![Action::Emit { namespace, event: Event::ContentReady { hash } }] + broadcast_actions(
        states,
        namespace,
        Op::ContentReady(hash),
    )
}

/// The actions that announce content to several documents, one after the other.
pub open spec fn content_ready_for_all(
    states: States,
    namespaces: Seq<NamespaceId>,
    hash: ContentHash,
) -> Seq<Action>
    decreases namespaces.len(),
{
    if namespaces.len() == 0 {
        Seq::empty()
    } else {
        content_ready_for_all(states, namespaces.drop_last(), hash) + content_ready_actions(
            states,
            namespaces.last(),
            hash,
        )
    }
}

/// The documents that the candidates are for.
pub open spec fn namespaces_in(candidates: Seq<DownloadCandidate>) -> Set<NamespaceId> {
    Set::new(
        |namespace: NamespaceId|
            exists|i: int|
                0 <= i < candidates.len() && (#[trigger] candidates[i]).namespace == namespace,
    )
}

/// The content is still wanted: the candidate says so, or the document misses it.
pub open spec fn is_eligible(
    missing: Pairs,
    hash: ContentHash,
    candidate: DownloadCandidate,
) -> bool {
    !candidate.only_if_missing || missing.contains((hash, candidate.namespace))
}

/// The documents for which some candidate is still wanted.
pub open spec fn eligible_namespaces(
    missing: Pairs,
    hash: ContentHash,
    candidates: Seq<DownloadCandidate>,
) -> Set<NamespaceId> {
    Set::new(
        |namespace: NamespaceId|
            exists|i: int|
                0 <= i < candidates.len() && (#[trigger] candidates[i]).namespace == namespace
                    && is_eligible(missing, hash, candidates[i]),
    )
}

/// The peers named by the candidates, as providers of the hash.
pub open spec fn providers_in(
    hash: ContentHash,
    candidates: Seq<DownloadCandidate>,
) -> Set<(ContentHash, PublicKey)> {
    Set::new(
        |pair: (ContentHash, PublicKey)|
            pair.0 == hash && exists|i: int|
                0 <= i < candidates.len() && (#[trigger] candidates[i]).node == pair.1,
    )
}

/// Content that is stored here already is announced for a candidate, unless the candidate asks
/// for it only where it is missing, and it is not, or an earlier candidate has filled the gap.
pub open spec fn announces(
    missing: Pairs,
    hash: ContentHash,
    candidates: Seq<DownloadCandidate>,
    i: int,
) -> bool {
    !candidates[i].only_if_missing || (missing.contains((hash, candidates[i].namespace))
        && !namespaces_in(candidates.take(i)).contains(candidates[i].namespace))
}

/// The actions for the candidates of content that is stored here already.
pub open spec fn stored_actions(
    model: LiveModel,
    hash: ContentHash,
    candidates: Seq<DownloadCandidate>,
) -> Seq<Action>
    decreases candidates.len(),
{
    if candidates.len() == 0 {
        Seq::empty()
    } else {
        let last = candidates.len() - 1;
        stored_actions(model, hash, candidates.drop_last()) + if announces(
            model.missing,
            hash,
            candidates,
            last,
        ) {
            content_ready_actions(model.states, candidates[last].namespace, hash)
        } else {
            Seq::empty()
        }
    }
}

/// The engine and its actions after the candidates for one hash were considered.
///
/// Content that is stored here is missing no longer. Content that is being downloaded is waited
/// for by every document that asked. Other content is downloaded for the documents that still want
/// it, if there is any such. Where content is waited for from now on, it is not missing.
pub open spec fn group_settled(
    model: LiveModel,
    hash: ContentHash,
    candidates: Seq<DownloadCandidate>,
    status: BlobStatus,
) -> (LiveModel, Seq<Action>) {
    let asked = pairs_with(hash, namespaces_in(candidates));
    let eligible = eligible_namespaces(model.missing, hash, candidates);
    let providers = model.providers.union(providers_in(hash, candidates));
    if status is Complete {
        (
            LiveModel { missing: model.missing.difference(asked), ..model },
            stored_actions(model, hash, candidates),
        )
    } else if has_hash(model.queued, hash) {
        (
            LiveModel {
                providers,
                queued: model.queued.union(asked),
                missing: model.missing.difference(asked),
                ..model
            },
            Seq::empty(),
        )
    } else if eligible == Set::<NamespaceId>::empty() {
        (LiveModel { providers, ..model }, Seq::empty())
    } else {
        (
            LiveModel {
                providers,
                queued: model.queued.union(pairs_with(hash, eligible)),
                missing: model.missing.difference(pairs_with(hash, eligible)),
                ..model
            },
            seq![Action::Download { namespace: candidates[0].namespace, hash }],
        )
    }
}

/// The engine and its actions after the first `n` groups were considered, each with its status.
pub open spec fn groups_settled(
    model: LiveModel,
    groups: Seq<HashGroup>,
    statuses: Seq<BlobStatus>,
    n: nat,
) -> (LiveModel, Seq<Action>)
    decreases n,
{
    if n == 0 {
        (model, Seq::empty())
    } else {
        let (before, actions) = groups_settled(model, groups, statuses, (n - 1) as nat);
        let group = groups[n - 1];
        let (after, more) = group_settled(before, group.hash, group.candidates@, statuses[n - 1]);
        (after, actions + more)
    }
}

/// The candidates of one hash, in the order in which they came up.
pub open spec fn candidates_for(
    pending: Seq<DownloadCandidate>,
    hash: ContentHash,
) -> Seq<DownloadCandidate> {
    pending.filter(|candidate: DownloadCandidate| candidate.hash == hash)
}

/// The groups are the pending candidates by hash: each hash of a candidate has one group, and no
/// group is empty.
pub open spec fn is_grouping(pending: Seq<DownloadCandidate>, groups: Seq<HashGroup>) -> bool {
    &&& forall|i: int|
        0 <= i < groups.len() ==> {
            &&& (#[trigger] groups[i]).candidates@ == candidates_for(pending, groups[i].hash)
            &&& groups[i].candidates@.len() > 0
        }
    &&& forall|i: int, j: int|
        0 <= i < j < groups.len() ==> (#[trigger] groups[i]).hash != (#[trigger] groups[j]).hash
    &&& forall|i: int|
        0 <= i < pending.len() ==> has_group(groups, (#[trigger] pending[i]).hash)
}

/// One of the groups is that of the hash.
pub open spec fn has_group(groups: Seq<HashGroup>, hash: ContentHash) -> bool {
    exists|i: int| 0 <= i < groups.len() && (#[trigger] groups[i]).hash == hash
}

/// The engine and its actions at the end of a sync, when its downloads have been considered.
///
/// If downloads are pending for the document, their end is to be announced. If none are, that is
/// announced at once, and not again before the next sync.
pub open spec fn sync_completed(
    model: LiveModel,
    namespace: NamespaceId,
    peer: PublicKey,
    resync: bool,
    now: SystemTime,
) -> (LiveModel, Seq<Action>) {
    let waiting = has_namespace(model.queued, namespace);
    let states = ready_noted(model.states, namespace, waiting);
    let actions = if waiting {
        Seq::empty()
    } else {
        seq![Action::Emit { namespace, event: Event::PendingContentReady }]
    };
    if resync {
        (
            LiveModel {
                states: connect_started(states, namespace, peer, SyncReason::Resync, now),
                ..model
            },
            actions + connect_actions(states, namespace, peer, SyncReason::Resync),
        )
    } else {
        (LiveModel { states, ..model }, actions)
    }
}

/// How many groups have a status.
pub open spec fn settled_count(groups: Seq<HashGroup>, statuses: Seq<BlobStatus>) -> nat {
    if groups.len() <= statuses.len() {
        groups.len()
    } else {
        statuses.len()
    }
}

/// The statuses that a batch request gave, if there is one for each hash.
pub open spec fn usable_batch(
    requested: nat,
    reply: Option<Vec<BlobStatus>>,
) -> Option<Vec<BlobStatus>> {
    match reply {
        Some(statuses) => if statuses@.len() == requested {
            Some(statuses)
        } else {
            None
        },
        None => None,
    }
}

/// The status of content. If it cannot be told, the content counts as not stored.
pub open spec fn status_or_not_found(reply: Option<BlobStatus>) -> BlobStatus {
    match reply {
        Some(status) => status,
        None => BlobStatus::NotFound,
    }
}

/// The engine and its actions after the statuses of some content became known.
pub open spec fn statuses_known(
    model: LiveModel,
    groups: Seq<HashGroup>,
    purpose: AfterFlush,
    statuses: Seq<BlobStatus>,
    now: SystemTime,
) -> (LiveModel, Seq<Action>) {
    let n = settled_count(groups, statuses);
    let (settled, actions) = groups_settled(model, groups, statuses, n);
    match purpose {
        AfterFlush::Nothing => (settled, actions),
        AfterFlush::FinishSync { namespace, peer, resync } => {
            let (completed, more) = sync_completed(settled, namespace, peer, resync, now);
            (completed, actions + more)
        },
    }
}

/// The actions that a sync causes whatever the state says of it: a peer that was synced with is
/// remembered, and entries that were received are reported.
pub open spec fn report_actions(
    states: States,
    namespace: NamespaceId,
    peer: PublicKey,
    result: Result<SyncFinished, String>,
) -> Seq<Action> {
    match result {
        Ok(finished) => {
            let register = seq![Action::RegisterUsefulPeer { namespace, peer }];
            match finished.outcome.heads_received {
                Some(heads) if finished.outcome.num_recv > 0 => register + broadcast_actions(
                    states,
                    namespace,
                    Op::SyncReport(SyncReport { namespace, heads }),
                ),
                _ => register,
            }
        },
        Err(_) => Seq::empty(),
    }
}

/// What subscribers are told of the end of a sync.
pub open spec fn sync_event(
    peer: PublicKey,
    origin: Origin,
    started: SystemTime,
    finished: SystemTime,
    result: Result<SyncFinished, String>,
) -> Event {
    let result = match result {
        Ok(done) => Ok(
            SyncDetails {
                entries_received: done.outcome.num_recv,
                entries_sent: done.outcome.num_sent,
            },
        ),
        Err(message) => Err(message),
    };
    Event::SyncFinished(SyncEvent { peer, origin, finished, started, result })
}

/// A download of each of the hashes from one peer, where it is missing.
pub open spec fn redriven(
    namespace: NamespaceId,
    peer: PublicKey,
    hashes: Seq<ContentHash>,
) -> Seq<DownloadCandidate> {
    hashes.map_values(
        |hash: ContentHash|
            DownloadCandidate { namespace, hash, node: peer, only_if_missing: true },
    )
}

/// The pending downloads are taken up: they are grouped by hash, and asked about, if there are any.
pub open spec fn flush_taken(
    before: LiveModel,
    purpose: AfterFlush,
    after: LiveModel,
    query: Option<StatusQuery>,
) -> bool {
    &&& after == LiveModel { pending: Seq::empty(), ..before }
    &&& match query {
        Some(query) => {
            &&& before.pending.len() > 0
            &&& query.purpose() == purpose
            &&& is_grouping(before.pending, query.groups())
        },
        None => before.pending.len() == 0,
    }
}

/// How the end of a sync is taken, at the given time.
///
/// The end of a sync that does not own the state is only reported. Otherwise the state is idle
/// again and subscribers are told. After a success, content that the document misses is asked for
/// from the peer before the sync is completed.
pub open spec fn sync_finish_taken(
    before: LiveModel,
    namespace: NamespaceId,
    peer: PublicKey,
    origin: Origin,
    result: Result<SyncFinished, String>,
    now: SystemTime,
    after: LiveModel,
    step: Step,
) -> bool {
    let report = report_actions(before.states, namespace, peer, result);
    match ended(before.states, namespace, peer, origin) {
        None => {
            &&& after == before
            &&& step.actions@ == report
            &&& step.next is Nothing
        },
        Some((started, resync)) => {
            let event = sync_event(peer, origin, started, now, result);
            let told = report.push(Action::Emit { namespace, event });
            let idle = LiveModel {
                states: sync_ended(before.states, namespace, peer, origin),
                ..before
            };
            if result is Ok && has_namespace(before.missing, namespace) {
                &&& after == LiveModel { pending: Seq::empty(), ..idle }
                &&& step.actions@ == told
                &&& step.next matches Next::QueryStatuses(query)
                &&& query.purpose() == AfterFlush::FinishSync { namespace, peer, resync }
                &&& is_redrive(before, namespace, peer, query.groups())
            } else {
                let (completed, more) = sync_completed(idle, namespace, peer, resync, now);
                &&& after == completed
                &&& step.actions@ == told + more
                &&& step.next is Nothing
            }
        },
    }
}

/// The groups are the pending downloads, and one of each hash that the document misses from the
/// peer.
pub open spec fn is_redrive(
    model: LiveModel,
    namespace: NamespaceId,
    peer: PublicKey,
    groups: Seq<HashGroup>,
) -> bool {
    exists|hashes: Seq<ContentHash>|
        {
            &&& #[trigger] enumerates(hashes, hashes_of(model.missing, namespace))
            &&& is_grouping(model.pending + redriven(namespace, peer, hashes), groups)
        }
}

/// The result of a sync, with the error in words.
pub open spec fn in_words(result: Result<SyncFinished, ConnectError>) -> Result<
    SyncFinished,
    String,
> {
    match result {
        Ok(finished) => Ok(finished),
        Err(err) => Err(err.text()),
    }
}

/// How the end of a sync that a peer started is taken, at the given time. A request that this side
/// turned down because of a sync that is running changes nothing, nor does one that failed before
/// it was known whose it was.
pub open spec fn accept_finish_taken(
    before: LiveModel,
    res: Result<SyncFinished, AcceptError>,
    now: SystemTime,
    after: LiveModel,
    step: Step,
) -> bool {
    match res {
        Ok(finished) => sync_finish_taken(
            before,
            finished.namespace,
            finished.peer,
            Origin::Accept,
            Ok(finished),
            now,
            after,
            step,
        ),
        Err(err) => if !err.is_already_syncing() && err.known_peer() is Some
            && err.known_namespace() is Some {
            sync_finish_taken(
                before,
                err.known_namespace()->0,
                err.known_peer()->0,
                Origin::Accept,
                Err(err.text()),
                now,
                after,
                step,
            )
        } else {
            after == before && step.does_nothing()
        },
    }
}

/// How a change of a document is taken.
///
/// An entry that was inserted here is broadcast while the document is synced. The content of an
/// entry that was received is to be downloaded from the sender, if that has it all, and is missing
/// otherwise. A sender whose key is none is refused.
pub open spec fn replica_event_taken(
    before: LiveModel,
    event: ReplicaEvent,
    after: LiveModel,
    result: Result<Vec<Action>, InvalidPublicKey>,
) -> bool {
    match event {
        ReplicaEvent::LocalInsert { namespace, entry } => {
            &&& after == before
            &&& result matches Ok(actions)
            &&& actions@ == if before.states.contains_key(namespace) {
                seq![Action::Broadcast { namespace, op: Op::Put(entry) }]
            } else {
                Seq::empty()
            }
        },
        ReplicaEvent::RemoteInsert {
            namespace,
            entry,
            from,
            should_download,
            remote_content_status,
        } => if !should_download {
            &&& after == before
            &&& result matches Ok(actions)
            &&& actions@ == Seq::<Action>::empty()
        } else if remote_content_status is Complete {
            if is_public_key(from@) {
                &&& result matches Ok(actions)
                &&& actions@ == Seq::<Action>::empty()
                &&& exists|node: PublicKey|
                    {
                        &&& #[trigger] node.bytes() == from@
                        &&& after == LiveModel {
                            pending: before.pending.push(
                                DownloadCandidate {
                                    namespace,
                                    hash: entry.content_hash,
                                    node,
                                    only_if_missing: false,
                                },
                            ),
                            ..before
                        }
                    }
            } else {
                after == before && result is Err
            }
        } else {
            &&& after == LiveModel {
                missing: before.missing.insert((entry.content_hash, namespace)),
                ..before
            }
            &&& result matches Ok(actions)
            &&& actions@ == Seq::<Action>::empty()
        },
    }
}

/// The actions of a change, which are none but a complaint if it was refused.
pub open spec fn or_refused(result: Result<Vec<Action>, InvalidPublicKey>) -> Seq<Action> {
    match result {
        Ok(actions) => actions@,
        Err(error) => seq![Action::ReportRefused { error }],
    }
}

/// How one more change of a batch, or the end of the batch, is taken. The batch also ends with the
/// last change that it has room for. At its end the pending downloads are taken up.
pub open spec fn batch_taken(
    before: LiveModel,
    handled: nat,
    event: Option<ReplicaEvent>,
    after: LiveModel,
    step: Step,
) -> bool {
    match event {
        None => {
            &&& step.actions@ == Seq::<Action>::empty()
            &&& flush_step_taken(before, after, step.next)
        },
        Some(event) => exists|changed: LiveModel, result: Result<Vec<Action>, InvalidPublicKey>|
            {
                &&& #[trigger] replica_event_taken(before, event, changed, result)
                &&& step.actions@ == or_refused(result)
                &&& if handled < MAX_REPLICA_EVENT_BATCH {
                    &&& after == changed
                    &&& step.next matches Next::NextInBatch { handled: so_far }
                    &&& so_far == handled + 1
                } else {
                    flush_step_taken(changed, after, step.next)
                }
            },
    }
}

/// The pending downloads are taken up, and nothing else is left to do.
pub open spec fn flush_step_taken(before: LiveModel, after: LiveModel, next: Next) -> bool {
    match next {
        Next::QueryStatuses(query) => flush_taken(
            before,
            AfterFlush::Nothing,
            after,
            Some(query),
        ),
        Next::Nothing => flush_taken(before, AfterFlush::Nothing, after, None),
        _ => false,
    }
}

/// The documents for which the last download has ended are no longer waiting for that.
pub open spec fn all_ready_noted(states: States, completed: Seq<NamespaceId>) -> States {
    Map::new(
        |namespace: NamespaceId| states.contains_key(namespace),
        |namespace: NamespaceId|
            if completed.contains(namespace) {
                NamespaceModel { peers: states[namespace].peers, may_emit_ready: false }
            } else {
                states[namespace]
            },
    )
}

/// The end of the last download is announced where that is due.
pub open spec fn ready_actions(states: States, completed: Seq<NamespaceId>) -> Seq<Action> {
    completed.filter(|namespace: NamespaceId| ready_due(states, namespace)).map_values(
        |namespace: NamespaceId|
            Action::Emit { namespace, event: Event::PendingContentReady },
    )
}

/// The engine and its actions after a download ended, for the given order of the documents that
/// waited for it.
///
/// Content that was downloaded is missing nowhere where it was waited for. Content that was not is
/// missing there.
pub open spec fn download_ended(
    model: LiveModel,
    hash: ContentHash,
    success: bool,
    waiting: Seq<NamespaceId>,
) -> (LiveModel, Seq<Action>) {
    let pairs = pairs_with(hash, namespaces_of(model.queued, hash));
    let completed = waiting.filter(
        |namespace: NamespaceId| is_last_hash(model.queued, hash, namespace),
    );
    let after = LiveModel {
        queued: without_hash(model.queued, hash),
        missing: if success {
            model.missing.difference(pairs)
        } else {
            model.missing.union(pairs)
        },
        states: all_ready_noted(model.states, completed),
        ..model
    };
    let ready = ready_actions(model.states, completed);
    if success {
        (after, content_ready_for_all(model.states, waiting, hash) + ready)
    } else {
        (after, ready)
    }
}

/// How the end of a download is taken: in some order of the documents that waited for it.
pub open spec fn download_end_taken(
    before: LiveModel,
    hash: ContentHash,
    success: bool,
    after: LiveModel,
    actions: Seq<Action>,
) -> bool {
    exists|waiting: Seq<NamespaceId>|
        {
            &&& #[trigger] enumerates(waiting, namespaces_of(before.queued, hash))
            &&& (after, actions) == download_ended(before, hash, success, waiting)
        }
}

/// The engine after its subscribers to a document are gone, if they are to go.
pub open spec fn subscribers_left(
    model: LiveModel,
    namespace: NamespaceId,
    kill_subscribers: bool,
) -> LiveModel {
    if kill_subscribers {
        LiveModel { subscribers: model.subscribers.remove(namespace), ..model }
    } else {
        model
    }
}

/// How a message is taken, at the given time.
pub open spec fn message_taken(
    before: LiveModel,
    msg: ToLiveActor,
    now: SystemTime,
    after: LiveModel,
    step: Step,
) -> bool {
    match msg {
        ToLiveActor::StartSync { namespace, peers } => {
            &&& after == before
            &&& step.asks_only(
                if before.states.contains_key(namespace) {
                    Next::ReadSyncPeers { namespace, peers }
                } else {
                    Next::OpenReplica { namespace, peers }
                },
            )
        },
        ToLiveActor::Leave { namespace, kill_subscribers } => if before.states.contains_key(
            namespace,
        ) {
            &&& after == LiveModel { states: before.states.remove(namespace), ..before }
            &&& step.asks_only(Next::CloseReplica { namespace, kill_subscribers })
        } else {
            &&& after == subscribers_left(before, namespace, kill_subscribers)
            &&& step.does_nothing()
        },
        ToLiveActor::Shutdown => after == before && step.asks_only(Next::Stop),
        ToLiveActor::Subscribe { namespace, sender } => {
            &&& after == LiveModel {
                subscribers: before.subscribers.insert(
                    namespace,
                    senders_of(before.subscribers, namespace).push(sender),
                ),
                ..before
            }
            &&& step.does_nothing()
        },
        ToLiveActor::HandleConnection => after == before && step.asks_only(
            Next::ServeConnection,
        ),
        ToLiveActor::AcceptSyncRequest { namespace, peer } => {
            &&& after == LiveModel {
                states: request_answered(before.states, before.me, namespace, peer, now),
                ..before
            }
            &&& step.asks_only(
                Next::Answer(accept_answer(before.states, before.me, namespace, peer)),
            )
        },
        ToLiveActor::IncomingSyncReport { from, report } => {
            &&& after == before
            &&& step.asks_only(
                if before.states.contains_key(report.namespace) {
                    Next::CheckNews { from, report }
                } else {
                    Next::Nothing
                },
            )
        },
        ToLiveActor::NeighborContentReady { namespace, node, hash } => {
            let candidate = DownloadCandidate { namespace, hash, node, only_if_missing: true };
            &&& step.actions@ == Seq::<Action>::empty()
            &&& flush_step_taken(
                LiveModel { pending: before.pending.push(candidate), ..before },
                after,
                step.next,
            )
        },
        ToLiveActor::NeighborUp { namespace, peer } => {
            let reason = SyncReason::NewNeighbor;
            &&& after == LiveModel {
                states: connect_started(before.states, namespace, peer, reason, now),
                ..before
            }
            &&& step.actions@ == connect_actions(before.states, namespace, peer, reason).push(
                Action::Emit { namespace, event: Event::NeighborUp(peer) },
            )
            &&& step.next is Nothing
        },
        ToLiveActor::NeighborDown { namespace, peer } => {
            &&& after == before
            &&& step.actions@ == seq![
                Action::Emit { namespace, event: Event::NeighborDown(peer) },
            ]
            &&& step.next is Nothing
        },
    }
}

/// How the answer whether a report holds news is taken, at the given time.
pub open spec fn news_taken(
    before: LiveModel,
    namespace: NamespaceId,
    from: PublicKey,
    news: News,
    now: SystemTime,
    after: LiveModel,
    actions: Seq<Action>,
) -> bool {
    if news is Updated {
        let reason = SyncReason::SyncReport;
        &&& after == LiveModel {
            states: connect_started(before.states, namespace, from, reason, now),
            ..before
        }
        &&& actions == connect_actions(before.states, namespace, from, reason)
    } else {
        after == before && actions == Seq::<Action>::empty()
    }
}

/// How an input is taken, at the given time.
pub open spec fn input_taken(
    before: LiveModel,
    input: Input,
    now: SystemTime,
    after: LiveModel,
    step: Step,
) -> bool {
    match input {
        Input::Message(Some(msg)) => message_taken(before, msg, now, after, step),
        Input::Message(None) => after == before && step.asks_only(
            Next::Fail(LiveError::InboxClosed),
        ),
        Input::ReplicaEvent(Some(event)) => batch_taken(before, 0, Some(event), after, step),
        Input::ReplicaEvent(None) => after == before && step.asks_only(
            Next::Fail(LiveError::ReplicaEventsClosed),
        ),
        Input::BatchEvent { handled, event } => batch_taken(
            before,
            handled as nat,
            event,
            after,
            step,
        ),
        Input::SyncConnect(Some(end)) => sync_finish_taken(
            before,
            end.namespace,
            end.peer,
            Origin::Connect(end.reason),
            in_words(end.result),
            now,
            after,
            step,
        ),
        Input::SyncAccept(Some(res)) => accept_finish_taken(before, res, now, after, step),
        Input::Download(Some(end)) => {
            &&& download_end_taken(before, end.hash, end.success, after, step.actions@)
            &&& step.next is Nothing
        },
        Input::SyncConnect(None) => after == before && step.asks_only(
            Next::Fail(LiveError::ConnectTaskFailed),
        ),
        Input::SyncAccept(None) => after == before && step.asks_only(
            Next::Fail(LiveError::AcceptTaskFailed),
        ),
        Input::Download(None) => after == before && step.asks_only(
            Next::Fail(LiveError::DownloadTaskFailed),
        ),
        Input::Opened { namespace, peers, opened } => if opened {
            &&& after == LiveModel {
                states: namespace_opened(before.states, namespace),
                ..before
            }
            &&& step.asks_only(Next::ReadSyncPeers { namespace, peers })
        } else {
            after == before && step.does_nothing()
        },
        Input::SyncPeers { namespace, peers, stored } => {
            &&& after == before
            &&& step.actions@ == Seq::<Action>::empty()
            &&& step.next matches Next::JoinSwarm { namespace: joined, plan }
            &&& joined == namespace
            &&& exists|all: Seq<EndpointAddr>| #[trigger]
                peers_extended(peers@, stored, all) && plan.is_for(all)
        },
        Input::Joined { namespace, peer_ids, joined } => if joined {
            &&& after == LiveModel {
                states: peers_joined(before.states, namespace, peer_ids@, now),
                ..before
            }
            &&& step.actions@ == join_actions(before.states, namespace, peer_ids@, now)
            &&& step.next is Nothing
        } else {
            after == before && step.does_nothing()
        },
        Input::Closed { namespace, kill_subscribers, closed } => if closed {
            &&& after == subscribers_left(before, namespace, kill_subscribers)
            &&& step.actions@ == seq![Action::QuitGossip { namespace }]
            &&& step.next is Nothing
        } else {
            after == before && step.does_nothing()
        },
        Input::News { namespace, from, news } => {
            &&& news_taken(before, namespace, from, news, now, after, step.actions@)
            &&& step.next is Nothing
        },
        Input::Statuses { query, statuses } => {
            &&& (after, step.actions@) == statuses_known(
                before,
                query.groups(),
                query.purpose(),
                statuses@,
                now,
            )
            &&& step.next is Nothing
        },
    }
}

/// The stored bytes that are keys, in order.
pub open spec fn stored_keys(stored: StoredPeers) -> Seq<Seq<u8>> {
    match stored {
        StoredPeers::Known(keys) => keys@.filter(|key: [u8; 32]| is_public_key(key@)).map_values(
            |key: [u8; 32]| key@,
        ),
        _ => Seq::empty(),
    }
}

/// `all` is the given peers, and behind them those that are stored, of which no address is known.
pub open spec fn peers_extended(
    peers: Seq<EndpointAddr>,
    stored: StoredPeers,
    all: Seq<EndpointAddr>,
) -> bool {
    &&& peers.len() <= all.len()
    &&& all.take(peers.len() as int) == peers
    &&& forall|i: int|
        peers.len() <= i < all.len() ==> (#[trigger] all[i]).addrs@ == Seq::<
            iroh::TransportAddr,
        >::empty()
    &&& all.skip(peers.len() as int).map_values(|peer: EndpointAddr| peer.id.bytes())
        == stored_keys(stored)
}

} // verus!

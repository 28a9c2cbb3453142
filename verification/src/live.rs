//! The engine: what it does about each event.
//!
//! The handlers here decide. They change what the engine knows and return [`Action`]s, which the
//! caller performs in order. Where a decision depends on the answer of some service, the handler
//! stops at the question, and another handler takes the answer.

use async_channel::Sender;
use n0_future::time::SystemTime;
use vstd::prelude::*;

use crate::hashes::{
    has_namespace, hashes_of, is_last_hash, lemma_filter_distinct, lemma_filter_take,
    namespaces_of, pairs_with, providers_of, MissingHashes, ProviderNodes, QueuedHashes,
};
use crate::ids::{ContentHash, Id, InvalidPublicKey, NamespaceId, PublicKey};
use crate::messages::{
    AcceptError, BlobStatus, ConnectError, ContentStatus, EndpointAddr, Event, Op, ReplicaEvent,
    SyncDetails, SyncEvent, SyncFinished, SyncReport, ToLiveActor,
};
use crate::model::{
    accept_finish_taken, all_ready_noted, announces, batch_taken, broadcast_actions,
    candidates_for, connect_actions, content_ready_actions, content_ready_for_all, download_end_taken,
    download_ended, eligible_namespaces, enumerates, flush_step_taken, flush_taken, group_settled,
    groups_settled, has_group, in_words, input_taken, is_eligible, is_grouping, is_redrive,
    join_actions, message_taken, namespaces_in, news_taken, or_refused, peers_extended,
    peers_joined, providers_in, ready_actions, redriven, replica_event_taken, report_actions,
    settled_count, status_or_not_found, statuses_known, stored_actions, stored_keys, subscribers_left, sync_completed,
    sync_finish_taken, usable_batch, LiveModel,
};
use crate::outside::{is_public_key, now};
use crate::sorted::{SortedMap, SortedSet};
use crate::state::{
    accept_answer, connect_started, namespace_opened, ready_due, request_answered, AbortReason,
    AcceptOutcome, NamespaceStates, Origin, SyncReason,
};
use crate::subscribers::{lists_settled, senders_of, SubscribersMap};

verus! {

/// Something the engine asks its surroundings to do.
#[derive(Debug, PartialEq, Eq)]
pub enum Action {
    /// Send an event to the subscribers of a document.
    Emit { namespace: NamespaceId, event: Event },
    /// Send an operation to all peers of a document.
    Broadcast { namespace: NamespaceId, op: Op },
    /// Send an operation to the direct neighbors of a document.
    BroadcastNeighbors { namespace: NamespaceId, op: Op },
    /// Connect to a peer and sync a document with it.
    Connect { namespace: NamespaceId, peer: PublicKey, reason: SyncReason },
    /// Remember that a peer is of use for a document.
    RegisterUsefulPeer { namespace: NamespaceId, peer: PublicKey },
    /// Download content, on behalf of a document.
    Download { namespace: NamespaceId, hash: ContentHash },
    /// Leave the swarm of a document.
    QuitGossip { namespace: NamespaceId },
    /// Complain of a change that was refused.
    ReportRefused { error: InvalidPublicKey },
}

/// A download to be considered.
#[derive(Debug, Clone, Copy)]
pub struct DownloadCandidate {
    /// The document that wants the content.
    pub namespace: NamespaceId,
    /// The hash of the content.
    pub hash: ContentHash,
    /// A peer that has the content.
    pub node: PublicKey,
    /// Whether the content is wanted only if it is missing.
    pub only_if_missing: bool,
}

/// The candidates for one hash.
#[derive(Debug)]
pub struct HashGroup {
    /// The hash.
    pub hash: ContentHash,
    /// The candidates, in the order in which they came up.
    pub candidates: Vec<DownloadCandidate>,
}

/// What is left to do once the pending downloads have been considered.
#[derive(Debug, Clone, Copy)]
pub enum AfterFlush {
    /// Nothing.
    Nothing,
    /// Complete a sync.
    FinishSync { namespace: NamespaceId, peer: PublicKey, resync: bool },
}

/// The question how much of some content is stored here.
#[derive(Debug)]
pub struct StatusQuery {
    groups: Vec<HashGroup>,
    purpose: AfterFlush,
}

impl StatusQuery {
    /// The candidates that wait for the answer.
    pub closed spec fn groups(self) -> Seq<HashGroup> {
        self.groups@
    }

    /// What is left to do after the answer.
    pub closed spec fn purpose(self) -> AfterFlush {
        self.purpose
    }

    /// No group is empty.
    #[verifier::type_invariant]
    spec fn filled(self) -> bool {
        groups_filled(self.groups@)
    }

    /// The hashes that are asked about.
    pub fn hashes(&self) -> (r: Vec<ContentHash>)
        ensures
            r@ == self.groups().map_values(|group: HashGroup| group.hash),
    {
        let mut r: Vec<ContentHash> = Vec::new();
        let mut i: usize = 0;
        while i < self.groups.len()
            invariant
                i <= self.groups@.len(),
                r@.len() == i,
                forall|j: int| 0 <= j < i ==> r@[j] == self.groups@[j].hash,
            decreases self.groups@.len() - i,
        {
            r.push(self.groups[i].hash);
            i = i + 1;
        }
        assert(r@ =~= self.groups().map_values(|group: HashGroup| group.hash));
        r
    }
}

/// No group is empty.
spec fn groups_filled(groups: Seq<HashGroup>) -> bool {
    forall|i: int| 0 <= i < groups.len() ==> (#[trigger] groups[i]).candidates@.len() > 0
}

/// The peers that are stored for a document.
#[derive(Debug)]
pub enum StoredPeers {
    /// There are none.
    Absent,
    /// The bytes of their keys.
    Known(Vec<[u8; 32]>),
    /// They could not be read.
    Unreadable,
}

/// What it takes to join the swarm of a document.
#[derive(Debug)]
pub struct JoinPlan {
    /// The peers whose addresses are to be noted.
    pub addresses: Vec<EndpointAddr>,
    /// The peers to join with.
    pub peer_ids: Vec<PublicKey>,
}

impl JoinPlan {
    /// The plan joins with each of the peers, and notes the addresses of those that have any.
    pub open spec fn is_for(self, peers: Seq<EndpointAddr>) -> bool {
        &&& self.addresses@ == peers.filter(|peer: EndpointAddr| peer.addrs@.len() > 0)
        &&& self.peer_ids@ == peers.map_values(|peer: EndpointAddr| peer.id)
    }
}

/// What is known of a sync report.
#[derive(Debug, Clone, Copy)]
pub enum News {
    /// It holds news.
    Updated,
    /// It holds none.
    Nothing,
    /// It could not be read, or not be checked.
    Unknown,
}

/// The end of a sync that was started from this side.
#[derive(Debug)]
pub struct ConnectEnd {
    /// The document.
    pub namespace: NamespaceId,
    /// The peer.
    pub peer: PublicKey,
    /// Why the sync was started.
    pub reason: SyncReason,
    /// How it ended.
    pub result: Result<SyncFinished, ConnectError>,
}

/// The end of a download.
#[derive(Debug, Clone, Copy)]
pub struct DownloadEnd {
    /// The hash of the content.
    pub hash: ContentHash,
    /// Whether the content is here now.
    pub success: bool,
}

/// Something the engine has to take note of.
#[derive(Debug)]
pub enum Input {
    /// A message came, or none will come any more.
    Message(Option<ToLiveActor>),
    /// A document has changed, or none will change any more.
    ReplicaEvent(Option<ReplicaEvent>),
    /// The answer to [`Next::NextInBatch`]: another change of the same batch, in which `handled`
    /// were handled before it, or the end of the batch.
    BatchEvent { handled: usize, event: Option<ReplicaEvent> },
    /// A sync that was started from this side ended, or its task broke down.
    SyncConnect(Option<ConnectEnd>),
    /// A sync that a peer started ended, or its task broke down.
    SyncAccept(Option<Result<SyncFinished, AcceptError>>),
    /// A download ended, or its task broke down.
    Download(Option<DownloadEnd>),
    /// The answer to [`Next::OpenReplica`].
    Opened { namespace: NamespaceId, peers: Vec<EndpointAddr>, opened: bool },
    /// The answer to [`Next::ReadSyncPeers`].
    SyncPeers { namespace: NamespaceId, peers: Vec<EndpointAddr>, stored: StoredPeers },
    /// The answer to [`Next::JoinSwarm`].
    Joined { namespace: NamespaceId, peer_ids: Vec<PublicKey>, joined: bool },
    /// The answer to [`Next::CloseReplica`].
    Closed { namespace: NamespaceId, kill_subscribers: bool, closed: bool },
    /// The answer to [`Next::CheckNews`].
    News { namespace: NamespaceId, from: PublicKey, news: News },
    /// The answer to [`Next::QueryStatuses`].
    Statuses { query: StatusQuery, statuses: Vec<BlobStatus> },
}

/// Why the engine cannot go on.
#[derive(Debug, Clone, Copy, PartialEq, Eq, Structural)]
pub enum LiveError {
    /// No message will come any more.
    InboxClosed,
    /// No change of a document will be heard of any more.
    ReplicaEventsClosed,
    /// The task of a sync that was started from this side broke down.
    ConnectTaskFailed,
    /// The task of a sync that a peer started broke down.
    AcceptTaskFailed,
    /// The task of a download broke down.
    DownloadTaskFailed,
}

/// What has to happen after the actions of a step.
#[derive(Debug)]
pub enum Next {
    /// Nothing.
    Nothing,
    /// The engine is to stop.
    Stop,
    /// The engine cannot go on.
    Fail(LiveError),
    /// The document has to be opened for sync.
    OpenReplica { namespace: NamespaceId, peers: Vec<EndpointAddr> },
    /// The peers stored for the document have to be read.
    ReadSyncPeers { namespace: NamespaceId, peers: Vec<EndpointAddr> },
    /// The swarm of the document has to be joined.
    JoinSwarm { namespace: NamespaceId, plan: JoinPlan },
    /// The document has to be closed.
    CloseReplica { namespace: NamespaceId, kill_subscribers: bool },
    /// The connection has to be served.
    ServeConnection,
    /// The sync request has its answer.
    Answer(AcceptOutcome),
    /// It has to be found out whether the report holds news.
    CheckNews { from: PublicKey, report: SyncReport },
    /// It has to be found out how much of some content is stored here.
    QueryStatuses(StatusQuery),
    /// The next change of the batch is to be handled, after the number that were handled so far.
    NextInBatch { handled: usize },
}

/// What an input leads to.
#[derive(Debug)]
pub struct Step {
    /// What is to be done, in this order.
    pub actions: Vec<Action>,
    /// What has to happen then.
    pub next: Next,
}

impl Step {
    /// There is nothing to do but what is left.
    pub open spec fn asks_only(self, next: Next) -> bool {
        self.actions@ == Seq::<Action>::empty() && self.next == next
    }

    /// There is nothing to do.
    pub open spec fn does_nothing(self) -> bool {
        self.asks_only(Next::Nothing)
    }

    fn ask(next: Next) -> (r: Step)
        ensures
            r.asks_only(next),
    {
        Step { actions: Vec::new(), next }
    }

    fn act(actions: Vec<Action>) -> (r: Step)
        ensures
            r.actions == actions,
            r.next is Nothing,
    {
        Step { actions, next: Next::Nothing }
    }
}

/// How many changes of documents are handled, beyond the first, before the downloads that they
/// ask for are considered.
pub const MAX_REPLICA_EVENT_BATCH: usize = 1024;

/// The engine.
pub struct LiveActor {
    me: PublicKey,
    state: NamespaceStates,
    /// Content hashes which are wanted and for which a provider is still to be found. A hash that
    /// gets queued for a document leaves.
    missing_hashes: MissingHashes,
    /// Content hashes queued in downloader.
    queued_hashes: QueuedHashes,
    /// Nodes known to have a hash.
    hash_providers: ProviderNodes,
    /// Download scheduling candidates collected while draining replica events.
    pending_downloads: Vec<DownloadCandidate>,
    /// Subscribers to actor events.
    subscribers: SubscribersMap,
}

impl View for LiveActor {
    type V = LiveModel;

    closed spec fn view(&self) -> LiveModel {
        LiveModel {
            me: self.me,
            states: self.state@,
            missing: self.missing_hashes@,
            queued: self.queued_hashes@,
            providers: self.hash_providers@,
            pending: self.pending_downloads@,
            subscribers: self.subscribers@,
        }
    }
}

impl LiveActor {
    /// The tables are consistent.
    pub closed spec fn wf(self) -> bool {
        &&& self.state.wf()
        &&& self.missing_hashes.wf()
        &&& self.queued_hashes.wf()
        &&& self.hash_providers.wf()
        &&& self.subscribers.wf()
    }

    /// The engine of the given peer, which knows of nothing yet.
    pub fn new(me: PublicKey) -> (r: LiveActor)
        ensures
            r.wf(),
            r@ == (LiveModel {
                me,
                states: Map::empty(),
                missing: Set::empty(),
                queued: Set::empty(),
                providers: Set::empty(),
                pending: Seq::empty(),
                subscribers: Map::empty(),
            }),
    {
        LiveActor {
            me,
            state: NamespaceStates::new(),
            missing_hashes: MissingHashes::new(),
            queued_hashes: QueuedHashes::new(),
            hash_providers: ProviderNodes::new(),
            pending_downloads: Vec::new(),
            subscribers: SubscribersMap::new(),
        }
    }

    /// Starts a sync from this side, if it may run.
    pub(crate) fn sync_with_peer(
        &mut self,
        namespace: NamespaceId,
        peer: PublicKey,
        reason: SyncReason,
        now: SystemTime,
        actions: &mut Vec<Action>,
    )
        requires
            old(self).wf(),
        ensures
            final(self).wf(),
            final(self)@ == (LiveModel {
                states: connect_started(old(self)@.states, namespace, peer, reason, now),
                ..old(self)@
            }),
            final(actions)@ == old(actions)@ + connect_actions(
                old(self)@.states,
                namespace,
                peer,
                reason,
            ),
    {
        let ghost start = actions@;
        if self.state.start_connect(&namespace, peer, reason, now) {
            actions.push(Action::Connect { namespace, peer, reason });
        }
        assert(actions@ =~= start + connect_actions(old(self)@.states, namespace, peer, reason));
    }

    /// Sends an operation to the neighbors of a document, while it is synced.
    pub(crate) fn broadcast_neighbors(&self, namespace: NamespaceId, op: Op, actions: &mut Vec<Action>)
        requires
            self.wf(),
        ensures
            final(actions)@ == old(actions)@ + broadcast_actions(self@.states, namespace, op),
    {
        let ghost start = actions@;
        if self.state.is_syncing(&namespace) {
            actions.push(Action::BroadcastNeighbors { namespace, op });
        }
        assert(actions@ =~= start + broadcast_actions(self@.states, namespace, op));
    }

    /// Announces that content is available.
    pub(crate) fn emit_content_ready(
        &self,
        namespace: NamespaceId,
        hash: ContentHash,
        actions: &mut Vec<Action>,
    )
        requires
            self.wf(),
        ensures
            final(actions)@ == old(actions)@ + content_ready_actions(
                self@.states,
                namespace,
                hash,
            ),
    {
        let ghost start = actions@;
        actions.push(Action::Emit { namespace, event: Event::ContentReady { hash } });
        self.broadcast_neighbors(namespace, Op::ContentReady(hash), actions);
        assert(actions@ =~= start + content_ready_actions(self@.states, namespace, hash));
    }

    /// Notes a download to be considered.
    pub(crate) fn queue_download(
        &mut self,
        namespace: NamespaceId,
        hash: ContentHash,
        node: PublicKey,
        only_if_missing: bool,
    )
        requires
            old(self).wf(),
        ensures
            final(self).wf(),
            final(self)@ == (LiveModel {
                pending: old(self)@.pending.push(
                    DownloadCandidate { namespace, hash, node, only_if_missing },
                ),
                ..old(self)@
            }),
    {
        self.pending_downloads.push(DownloadCandidate { namespace, hash, node, only_if_missing });
    }

    /// Takes the pending downloads up, grouped by hash, to be considered once it is known how much
    /// of the content is stored here.
    pub(crate) fn flush_pending_downloads(&mut self, purpose: AfterFlush) -> (r: Option<StatusQuery>)
        requires
            old(self).wf(),
        ensures
            final(self).wf(),
            flush_taken(old(self)@, purpose, final(self)@, r),
    {
        let mut pending: Vec<DownloadCandidate> = Vec::new();
        std::mem::swap(&mut pending, &mut self.pending_downloads);
        if pending.len() == 0 {
            return None;
        }
        let groups = group_by_hash(pending);
        Some(StatusQuery { groups, purpose })
    }

    /// Takes the pending downloads up, with nothing else to follow.
    fn flush_step(&mut self, actions: Vec<Action>) -> (r: Step)
        requires
            old(self).wf(),
        ensures
            final(self).wf(),
            r.actions == actions,
            flush_step_taken(old(self)@, final(self)@, r.next),
    {
        let next = match self.flush_pending_downloads(AfterFlush::Nothing) {
            Some(query) => Next::QueryStatuses(query),
            None => Next::Nothing,
        };
        Step { actions, next }
    }

    /// Remembers the peers named by the candidates.
    pub(crate) fn record_hash_providers(&mut self, hash: ContentHash, candidates: &Vec<DownloadCandidate>)
        requires
            old(self).wf(),
        ensures
            final(self).wf(),
            final(self)@ == (LiveModel {
                providers: old(self)@.providers.union(providers_in(hash, candidates@)),
                ..old(self)@
            }),
    {
        let mut i: usize = 0;
        assert(self@.providers =~= old(self)@.providers.union(
            providers_in(hash, candidates@.take(0)),
        ));
        while i < candidates.len()
            invariant
                i <= candidates@.len(),
                self.wf(),
                self@ == (LiveModel {
                    providers: old(self)@.providers.union(
                        providers_in(hash, candidates@.take(i as int)),
                    ),
                    ..old(self)@
                }),
            decreases candidates@.len() - i,
        {
            self.hash_providers.insert(hash, candidates[i].node);
            proof {
                let done = candidates@.take(i as int);
                let next = candidates@.take(i + 1);
                assert(forall|j: int| 0 <= j < done.len() ==> done[j] == next[j]);
                assert(next[i as int] == candidates@[i as int]);
                assert(self@.providers =~= old(self)@.providers.union(providers_in(hash, next)));
            }
            i = i + 1;
        }
        assert(candidates@.take(i as int) =~= candidates@);
    }

    /// Whether the content of a candidate is still wanted.
    pub(crate) fn download_candidate_is_eligible(
        &self,
        hash: ContentHash,
        candidate: &DownloadCandidate,
    ) -> (r: bool)
        requires
            self.wf(),
        ensures
            r == is_eligible(self@.missing, hash, *candidate),
    {
        !candidate.only_if_missing || self.missing_hashes.contains(hash, &candidate.namespace)
    }

    /// The candidates of content that is stored here.
    fn settle_stored(
        &mut self,
        hash: ContentHash,
        candidates: &Vec<DownloadCandidate>,
        actions: &mut Vec<Action>,
    )
        requires
            old(self).wf(),
        ensures
            final(self).wf(),
            final(self)@ == (LiveModel {
                missing: old(self)@.missing.difference(
                    pairs_with(hash, namespaces_in(candidates@)),
                ),
                ..old(self)@
            }),
            final(actions)@ == old(actions)@ + stored_actions(old(self)@, hash, candidates@),
    {
        let ghost model = self@;
        let ghost start = actions@;
        let mut i: usize = 0;
        proof {
            assert(candidates@.take(0) =~= Seq::<DownloadCandidate>::empty());
            assert(self@.missing =~= model.missing.difference(
                pairs_with(hash, namespaces_in(candidates@.take(0))),
            ));
            assert(actions@ =~= start + stored_actions(model, hash, candidates@.take(0)));
        }
        while i < candidates.len()
            invariant
                i <= candidates@.len(),
                self.wf(),
                self@ == (LiveModel {
                    missing: model.missing.difference(
                        pairs_with(hash, namespaces_in(candidates@.take(i as int))),
                    ),
                    ..model
                }),
                actions@ == start + stored_actions(model, hash, candidates@.take(i as int)),
            decreases candidates@.len() - i,
        {
            let candidate: DownloadCandidate = candidates[i];
            let ghost done = candidates@.take(i as int);
            let ghost next = candidates@.take(i + 1);
            proof {
                assert(next.drop_last() =~= done);
                assert(next.take(i as int) =~= done);
                assert(next[i as int] == candidate);
                assert(forall|j: int| 0 <= j < done.len() ==> done[j] == next[j]);
            }
            let was_missing = self.missing_hashes.remove(hash, &candidate.namespace);
            proof {
                assert(self@.missing =~= model.missing.difference(
                    pairs_with(hash, namespaces_in(next)),
                ));
                assert((!candidate.only_if_missing || was_missing) == announces(
                    model.missing,
                    hash,
                    next,
                    i as int,
                ));
            }
            if !candidate.only_if_missing || was_missing {
                self.emit_content_ready(candidate.namespace, hash, actions);
            }
            assert(actions@ =~= start + stored_actions(model, hash, next));
            i = i + 1;
        }
        assert(candidates@.take(i as int) =~= candidates@);
    }

    /// The candidates of content that is being downloaded.
    fn settle_queued(&mut self, hash: ContentHash, candidates: &Vec<DownloadCandidate>)
        requires
            old(self).wf(),
        ensures
            final(self).wf(),
            final(self)@ == (LiveModel {
                queued: old(self)@.queued.union(pairs_with(hash, namespaces_in(candidates@))),
                missing: old(self)@.missing.difference(
                    pairs_with(hash, namespaces_in(candidates@)),
                ),
                ..old(self)@
            }),
    {
        let ghost model = self@;
        let mut i: usize = 0;
        proof {
            let none = pairs_with(hash, namespaces_in(candidates@.take(0)));
            assert(self@.queued =~= model.queued.union(none));
            assert(self@.missing =~= model.missing.difference(none));
        }
        while i < candidates.len()
            invariant
                i <= candidates@.len(),
                self.wf(),
                self@ == (LiveModel {
                    queued: model.queued.union(
                        pairs_with(hash, namespaces_in(candidates@.take(i as int))),
                    ),
                    missing: model.missing.difference(
                        pairs_with(hash, namespaces_in(candidates@.take(i as int))),
                    ),
                    ..model
                }),
            decreases candidates@.len() - i,
        {
            self.queued_hashes.insert(hash, candidates[i].namespace);
            self.missing_hashes.remove(hash, &candidates[i].namespace);
            proof {
                let done = candidates@.take(i as int);
                let next = candidates@.take(i + 1);
                assert(next[i as int] == candidates@[i as int]);
                assert(forall|j: int| 0 <= j < done.len() ==> done[j] == next[j]);
                assert(self@.queued =~= model.queued.union(
                    pairs_with(hash, namespaces_in(next)),
                ));
                assert(self@.missing =~= model.missing.difference(
                    pairs_with(hash, namespaces_in(next)),
                ));
            }
            i = i + 1;
        }
        assert(candidates@.take(i as int) =~= candidates@);
    }

    /// The documents for which some candidate is still wanted.
    fn eligible(&self, hash: ContentHash, candidates: &Vec<DownloadCandidate>) -> (r: SortedSet<
        NamespaceId,
    >)
        requires
            self.wf(),
        ensures
            r.wf(),
            r@ == eligible_namespaces(self@.missing, hash, candidates@),
    {
        let mut r: SortedSet<NamespaceId> = SortedSet::new();
        let mut i: usize = 0;
        assert(r@ =~= eligible_namespaces(self@.missing, hash, candidates@.take(0)));
        while i < candidates.len()
            invariant
                i <= candidates@.len(),
                self.wf(),
                r.wf(),
                r@ == eligible_namespaces(self@.missing, hash, candidates@.take(i as int)),
            decreases candidates@.len() - i,
        {
            if self.download_candidate_is_eligible(hash, &candidates[i]) {
                r.insert(candidates[i].namespace);
            }
            proof {
                let done = candidates@.take(i as int);
                let next = candidates@.take(i + 1);
                assert(next[i as int] == candidates@[i as int]);
                assert(forall|j: int| 0 <= j < done.len() ==> done[j] == next[j]);
                assert(r@ =~= eligible_namespaces(self@.missing, hash, next));
            }
            i = i + 1;
        }
        assert(candidates@.take(i as int) =~= candidates@);
        r
    }

    /// Hands content to the downloader for the given documents.
    fn move_to_queue(&mut self, hash: ContentHash, namespaces: &SortedSet<NamespaceId>)
        requires
            old(self).wf(),
            namespaces.wf(),
        ensures
            final(self).wf(),
            final(self)@ == (LiveModel {
                queued: old(self)@.queued.union(pairs_with(hash, namespaces@)),
                missing: old(self)@.missing.difference(pairs_with(hash, namespaces@)),
                ..old(self)@
            }),
    {
        let ghost model = self@;
        let list = namespaces.to_vec();
        let mut i: usize = 0;
        proof {
            let none = pairs_with(hash, list@.take(0).to_set());
            assert(self@.queued =~= model.queued.union(none));
            assert(self@.missing =~= model.missing.difference(none));
        }
        while i < list.len()
            invariant
                i <= list@.len(),
                self.wf(),
                self@ == (LiveModel {
                    queued: model.queued.union(pairs_with(hash, list@.take(i as int).to_set())),
                    missing: model.missing.difference(
                        pairs_with(hash, list@.take(i as int).to_set()),
                    ),
                    ..model
                }),
            decreases list@.len() - i,
        {
            self.queued_hashes.insert(hash, list[i]);
            self.missing_hashes.remove(hash, &list[i]);
            proof {
                let next = list@.take(i + 1);
                lemma_take_to_set(list@, i as int);
                assert(self@.queued =~= model.queued.union(pairs_with(hash, next.to_set())));
                assert(self@.missing =~= model.missing.difference(
                    pairs_with(hash, next.to_set()),
                ));
            }
            i = i + 1;
        }
        assert(list@.take(i as int) =~= list@);
    }

    /// Considers the candidates for one hash.
    fn settle_group(
        &mut self,
        hash: ContentHash,
        candidates: &Vec<DownloadCandidate>,
        status: BlobStatus,
        actions: &mut Vec<Action>,
    )
        requires
            old(self).wf(),
            candidates@.len() > 0,
        ensures
            final(self).wf(),
            final(self)@ == group_settled(old(self)@, hash, candidates@, status).0,
            final(actions)@ == old(actions)@ + group_settled(
                old(self)@,
                hash,
                candidates@,
                status,
            ).1,
    {
        let ghost start = actions@;
        if let BlobStatus::Complete { .. } = status {
            self.settle_stored(hash, candidates, actions);
            return;
        }
        self.record_hash_providers(hash, candidates);
        if self.queued_hashes.contains_hash(&hash) {
            self.settle_queued(hash, candidates);
        } else {
            let namespaces = self.eligible(hash, candidates);
            if !namespaces.is_empty() {
                actions.push(Action::Download { namespace: candidates[0].namespace, hash });
                self.move_to_queue(hash, &namespaces);
            }
        }
        assert(actions@ =~= start + group_settled(old(self)@, hash, candidates@, status).1);
    }

    /// Considers the candidates for each hash whose status is known.
    fn settle_groups(
        &mut self,
        groups: &Vec<HashGroup>,
        statuses: &Vec<BlobStatus>,
        actions: &mut Vec<Action>,
    )
        requires
            old(self).wf(),
            groups_filled(groups@),
        ensures
            final(self).wf(),
            ({
                let n = settled_count(groups@, statuses@);
                let (model, more) = groups_settled(old(self)@, groups@, statuses@, n);
                final(self)@ == model && final(actions)@ == old(actions)@ + more
            }),
    {
        let ghost start = actions@;
        let mut i: usize = 0;
        assert(actions@ =~= start + Seq::<Action>::empty());
        while i < groups.len() && i < statuses.len()
            invariant
                i <= groups@.len(),
                i <= statuses@.len(),
                self.wf(),
                groups_filled(groups@),
                self@ == groups_settled(old(self)@, groups@, statuses@, i as nat).0,
                actions@ == start + groups_settled(old(self)@, groups@, statuses@, i as nat).1,
            decreases groups@.len() - i,
        {
            self.settle_group(groups[i].hash, &groups[i].candidates, statuses[i], actions);
            i = i + 1;
            assert(actions@ =~= start + groups_settled(
                old(self)@,
                groups@,
                statuses@,
                i as nat,
            ).1);
        }
    }

    /// Completes a sync whose downloads have been considered.
    fn complete_sync(
        &mut self,
        namespace: NamespaceId,
        peer: PublicKey,
        resync: bool,
        now: SystemTime,
        actions: &mut Vec<Action>,
    )
        requires
            old(self).wf(),
        ensures
            final(self).wf(),
            final(self)@ == sync_completed(old(self)@, namespace, peer, resync, now).0,
            final(actions)@ == old(actions)@ + sync_completed(
                old(self)@,
                namespace,
                peer,
                resync,
                now,
            ).1,
    {
        let ghost start = actions@;
        if self.queued_hashes.contains_namespace(&namespace) {
            self.state.set_may_emit_ready(&namespace, true);
        } else {
            actions.push(Action::Emit { namespace, event: Event::PendingContentReady });
            self.state.set_may_emit_ready(&namespace, false);
        }
        if resync {
            self.sync_with_peer(namespace, peer, SyncReason::Resync, now, actions);
        }
        assert(actions@ =~= start + sync_completed(old(self)@, namespace, peer, resync, now).1);
    }

    /// It is known how much of the content that was asked about is stored here.
    pub(crate) fn on_statuses(
        &mut self,
        query: StatusQuery,
        statuses: Vec<BlobStatus>,
        now: SystemTime,
    ) -> (r: Vec<Action>)
        requires
            old(self).wf(),
        ensures
            final(self).wf(),
            (final(self)@, r@) == statuses_known(
                old(self)@,
                query.groups(),
                query.purpose(),
                statuses@,
                now,
            ),
    {
        proof {
            use_type_invariant(&query);
        }
        let mut actions: Vec<Action> = Vec::new();
        self.settle_groups(&query.groups, &statuses, &mut actions);
        match query.purpose {
            AfterFlush::Nothing => {},
            AfterFlush::FinishSync { namespace, peer, resync } => {
                self.complete_sync(namespace, peer, resync, now, &mut actions);
            },
        }
        assert(actions@ =~= statuses_known(
            old(self)@,
            query.groups(),
            query.purpose(),
            statuses@,
            now,
        ).1);
        actions
    }

    /// A sync ended, at the given time.
    pub(crate) fn on_sync_finished(
        &mut self,
        namespace: NamespaceId,
        peer: PublicKey,
        origin: Origin,
        result: Result<SyncFinished, String>,
        now: SystemTime,
    ) -> (r: Step)
        requires
            old(self).wf(),
        ensures
            final(self).wf(),
            sync_finish_taken(
                old(self)@,
                namespace,
                peer,
                origin,
                result,
                now,
                final(self)@,
                r,
            ),
    {
        let ghost before = self@;
        let ghost given = result;
        let mut actions: Vec<Action> = Vec::new();
        let details: Result<SyncDetails, String> = match result {
            Ok(finished) => {
                // register the peer as useful for the document
                actions.push(Action::RegisterUsefulPeer { namespace, peer });
                let details = SyncDetails::from(&finished);
                // broadcast a sync report to our neighbors, but only if we received new entries
                if finished.outcome.num_recv > 0 {
                    if let Some(heads) = finished.outcome.heads_received {
                        let report = SyncReport { namespace, heads };
                        self.broadcast_neighbors(namespace, Op::SyncReport(report), &mut actions);
                    }
                }
                Ok(details)
            },
            Err(message) => Err(message),
        };
        assert(actions@ =~= report_actions(before.states, namespace, peer, given));
        let (started, resync) = match self.state.finish(&namespace, peer, &origin) {
            Some(ended) => ended,
            None => {
                return Step::act(actions);
            },
        };
        let succeeded = details.is_ok();
        let event = Event::SyncFinished(
            SyncEvent { peer, origin, finished: now, started, result: details },
        );
        actions.push(Action::Emit { namespace, event });
        if succeeded {
            if let Some(query) = self.redrive_missing_content_for_peer(namespace, peer, resync) {
                return Step { actions, next: Next::QueryStatuses(query) };
            }
        }
        self.complete_sync(namespace, peer, resync, now, &mut actions);
        Step::act(actions)
    }

    /// Asks for the content that a document misses from a peer.
    pub(crate) fn redrive_missing_content_for_peer(
        &mut self,
        namespace: NamespaceId,
        peer: PublicKey,
        resync: bool,
    ) -> (r: Option<StatusQuery>)
        requires
            old(self).wf(),
        ensures
            final(self).wf(),
            r is Some <==> has_namespace(old(self)@.missing, namespace),
            match r {
                Some(query) => {
                    &&& final(self)@ == (LiveModel { pending: Seq::empty(), ..old(self)@ })
                    &&& query.purpose() == (AfterFlush::FinishSync { namespace, peer, resync })
                    &&& is_redrive(old(self)@, namespace, peer, query.groups())
                },
                None => final(self)@ == old(self)@,
            },
    {
        let ghost model = self@;
        let missing = self.missing_hashes.hashes_for_namespace(&namespace);
        proof {
            assert forall|hash: ContentHash|
                missing@.to_set().contains(hash) <==> #[trigger] model.missing.contains(
                    (hash, namespace),
                ) by {
                assert(missing@.to_set().contains(hash) == hashes_of(
                    model.missing,
                    namespace,
                ).contains(hash));
            }
        }
        if missing.len() == 0 {
            return None;
        }
        assert(missing@.to_set().contains(missing@[0]));
        let mut i: usize = 0;
        assert(self@.pending =~= model.pending + redriven(namespace, peer, missing@.take(0)));
        while i < missing.len()
            invariant
                i <= missing@.len(),
                self.wf(),
                self@ == (LiveModel {
                    pending: model.pending + redriven(namespace, peer, missing@.take(i as int)),
                    ..model
                }),
            decreases missing@.len() - i,
        {
            self.queue_download(namespace, missing[i], peer, true);
            i = i + 1;
            assert(self@.pending =~= model.pending + redriven(
                namespace,
                peer,
                missing@.take(i as int),
            ));
        }
        assert(missing@.take(i as int) =~= missing@);
        assert(enumerates(missing@, hashes_of(model.missing, namespace)));
        self.flush_pending_downloads(AfterFlush::FinishSync { namespace, peer, resync })
    }

    /// A sync that was started from this side ended, at the given time.
    ///
    /// This holds of a request that the peer turned down too: the state is idle again, unless a
    /// sync that the peer started has taken it over in the meantime.
    pub(crate) fn on_sync_via_connect_finished(
        &mut self,
        namespace: NamespaceId,
        peer: PublicKey,
        reason: SyncReason,
        result: Result<SyncFinished, ConnectError>,
        now: SystemTime,
    ) -> (r: Step)
        requires
            old(self).wf(),
        ensures
            final(self).wf(),
            sync_finish_taken(
                old(self)@,
                namespace,
                peer,
                Origin::Connect(reason),
                in_words(result),
                now,
                final(self)@,
                r,
            ),
    {
        let result = match result {
            Ok(finished) => Ok(finished),
            Err(err) => Err(err.into_message()),
        };
        self.on_sync_finished(namespace, peer, Origin::Connect(reason), result, now)
    }

    /// A sync that a peer started ended, at the given time.
    pub(crate) fn on_sync_via_accept_finished(
        &mut self,
        res: Result<SyncFinished, AcceptError>,
        now: SystemTime,
    ) -> (r: Step)
        requires
            old(self).wf(),
        ensures
            final(self).wf(),
            accept_finish_taken(old(self)@, res, now, final(self)@, r),
    {
        match res {
            Ok(finished) => self.on_sync_finished(
                finished.namespace,
                finished.peer,
                Origin::Accept,
                Ok(finished),
                now,
            ),
            Err(err) => {
                let already_syncing = match &err {
                    AcceptError::Abort { reason, .. } => *reason == AbortReason::AlreadySyncing,
                    AcceptError::Failed { .. } => false,
                };
                let known = (err.peer(), err.namespace());
                if !already_syncing {
                    if let (Some(peer), Some(namespace)) = known {
                        let message = err.into_message();
                        return self.on_sync_finished(
                            namespace,
                            peer,
                            Origin::Accept,
                            Err(message),
                            now,
                        );
                    }
                }
                // In case we aborted the sync: do nothing (our outgoing sync is in progress).
                // In case it failed before the first message was read: nothing was started.
                Step::ask(Next::Nothing)
            },
        }
    }

    /// A document has changed.
    pub(crate) fn on_replica_event(&mut self, event: ReplicaEvent) -> (r: Result<
        Vec<Action>,
        InvalidPublicKey,
    >)
        requires
            old(self).wf(),
        ensures
            final(self).wf(),
            replica_event_taken(old(self)@, event, final(self)@, r),
    {
        let mut actions: Vec<Action> = Vec::new();
        match event {
            ReplicaEvent::LocalInsert { namespace, entry } => {
                if self.state.is_syncing(&namespace) {
                    actions.push(Action::Broadcast { namespace, op: Op::Put(entry) });
                }
            },
            ReplicaEvent::RemoteInsert {
                namespace,
                entry,
                from,
                should_download,
                remote_content_status,
            } => {
                if should_download {
                    let hash: ContentHash = entry.content_hash;
                    if let ContentStatus::Complete = remote_content_status {
                        match PublicKey::from_bytes(&from) {
                            Ok(node) => {
                                self.queue_download(namespace, hash, node, false);
                                assert(node.bytes() == from@);
                            },
                            Err(err) => {
                                return Err(err);
                            },
                        }
                    } else {
                        self.missing_hashes.insert(hash, namespace);
                    }
                }
            },
        }
        Ok(actions)
    }

    /// One more change of a batch of changes, or the end of the batch. `handled` tells how many
    /// changes of the batch were handled before.
    pub(crate) fn on_replica_events(&mut self, handled: usize, event: Option<ReplicaEvent>) -> (r: Step)
        requires
            old(self).wf(),
        ensures
            final(self).wf(),
            batch_taken(old(self)@, handled as nat, event, final(self)@, r),
    {
        match event {
            Some(event) => {
                let result = self.on_replica_event(event);
                let ghost changed = self@;
                let ghost outcome = result;
                let actions: Vec<Action> = match result {
                    Ok(actions) => actions,
                    Err(error) => {
                        let mut actions: Vec<Action> = Vec::new();
                        actions.push(Action::ReportRefused { error });
                        actions
                    },
                };
                assert(actions@ =~= or_refused(outcome));
                assert(replica_event_taken(old(self)@, event, changed, outcome));
                if handled < MAX_REPLICA_EVENT_BATCH {
                    Step { actions, next: Next::NextInBatch { handled: handled + 1 } }
                } else {
                    self.flush_step(actions)
                }
            },
            None => self.flush_step(Vec::new()),
        }
    }

    /// A download ended.
    pub(crate) fn on_download_ready(&mut self, hash: ContentHash, success: bool) -> (r: Vec<Action>)
        requires
            old(self).wf(),
        ensures
            final(self).wf(),
            download_end_taken(old(self)@, hash, success, final(self)@, r@),
    {
        let ghost model = self@;
        let removed = self.queued_hashes.remove_hash(&hash);
        let ghost waiting = removed.namespaces@;
        let mut actions: Vec<Action> = Vec::new();
        if success {
            self.content_arrived(hash, &removed.namespaces, &mut actions);
        } else {
            self.content_missed(hash, &removed.namespaces);
        }
        proof {
            lemma_filter_distinct(
                waiting,
                |namespace: NamespaceId| is_last_hash(model.queued, hash, namespace),
            );
        }
        self.announce_completed(&removed.completed_namespaces, &mut actions);
        proof {
            assert(enumerates(waiting, namespaces_of(model.queued, hash)));
            let (after, told) = download_ended(model, hash, success, waiting);
            assert(self@ =~= after);
            assert(actions@ =~= told);
        }
        actions
    }

    /// Content was downloaded for the given documents.
    fn content_arrived(
        &mut self,
        hash: ContentHash,
        namespaces: &Vec<NamespaceId>,
        actions: &mut Vec<Action>,
    )
        requires
            old(self).wf(),
        ensures
            final(self).wf(),
            final(self)@ == (LiveModel {
                missing: old(self)@.missing.difference(pairs_with(hash, namespaces@.to_set())),
                ..old(self)@
            }),
            final(actions)@ == old(actions)@ + content_ready_for_all(
                old(self)@.states,
                namespaces@,
                hash,
            ),
    {
        let ghost model = self@;
        let ghost start = actions@;
        let mut i: usize = 0;
        proof {
            assert(namespaces@.take(0) =~= Seq::<NamespaceId>::empty());
            assert(self@.missing =~= model.missing.difference(
                pairs_with(hash, namespaces@.take(0).to_set()),
            ));
            assert(actions@ =~= start + content_ready_for_all(
                model.states,
                namespaces@.take(0),
                hash,
            ));
        }
        while i < namespaces.len()
            invariant
                i <= namespaces@.len(),
                self.wf(),
                self@ == (LiveModel {
                    missing: model.missing.difference(
                        pairs_with(hash, namespaces@.take(i as int).to_set()),
                    ),
                    ..model
                }),
                actions@ == start + content_ready_for_all(
                    model.states,
                    namespaces@.take(i as int),
                    hash,
                ),
            decreases namespaces@.len() - i,
        {
            let namespace: NamespaceId = namespaces[i];
            self.missing_hashes.remove(hash, &namespace);
            self.emit_content_ready(namespace, hash, actions);
            proof {
                let done = namespaces@.take(i as int);
                let next = namespaces@.take(i + 1);
                lemma_take_to_set(namespaces@, i as int);
                assert(next.drop_last() =~= done);
                assert(self@.missing =~= model.missing.difference(
                    pairs_with(hash, next.to_set()),
                ));
                assert(actions@ =~= start + content_ready_for_all(model.states, next, hash));
            }
            i = i + 1;
        }
        assert(namespaces@.take(i as int) =~= namespaces@);
    }

    /// Content could not be downloaded for the given documents.
    fn content_missed(&mut self, hash: ContentHash, namespaces: &Vec<NamespaceId>)
        requires
            old(self).wf(),
        ensures
            final(self).wf(),
            final(self)@ == (LiveModel {
                missing: old(self)@.missing.union(pairs_with(hash, namespaces@.to_set())),
                ..old(self)@
            }),
    {
        let ghost model = self@;
        let mut i: usize = 0;
        assert(self@.missing =~= model.missing.union(
            pairs_with(hash, namespaces@.take(0).to_set()),
        ));
        while i < namespaces.len()
            invariant
                i <= namespaces@.len(),
                self.wf(),
                self@ == (LiveModel {
                    missing: model.missing.union(
                        pairs_with(hash, namespaces@.take(i as int).to_set()),
                    ),
                    ..model
                }),
            decreases namespaces@.len() - i,
        {
            self.missing_hashes.insert(hash, namespaces[i]);
            proof {
                lemma_take_to_set(namespaces@, i as int);
                assert(self@.missing =~= model.missing.union(
                    pairs_with(hash, namespaces@.take(i + 1).to_set()),
                ));
            }
            i = i + 1;
        }
        assert(namespaces@.take(i as int) =~= namespaces@);
    }

    /// Nothing is being downloaded any more for the given documents.
    fn announce_completed(&mut self, completed: &Vec<NamespaceId>, actions: &mut Vec<Action>)
        requires
            old(self).wf(),
            completed@.no_duplicates(),
        ensures
            final(self).wf(),
            final(self)@ == (LiveModel {
                states: all_ready_noted(old(self)@.states, completed@),
                ..old(self)@
            }),
            final(actions)@ == old(actions)@ + ready_actions(old(self)@.states, completed@),
    {
        let ghost model = self@;
        let ghost start = actions@;
        let ghost due = |namespace: NamespaceId| ready_due(model.states, namespace);
        let mut i: usize = 0;
        proof {
            assert(completed@.take(0) =~= Seq::<NamespaceId>::empty());
            assert(self@.states =~= all_ready_noted(model.states, completed@.take(0)));
            assert(completed@.take(0).filter(due) =~= Seq::<NamespaceId>::empty()) by {
                reveal(Seq::filter);
            }
            assert(actions@ =~= start + ready_actions(model.states, completed@.take(0)));
        }
        while i < completed.len()
            invariant
                i <= completed@.len(),
                completed@.no_duplicates(),
                self.wf(),
                due == (|namespace: NamespaceId| ready_due(model.states, namespace)),
                self@ == (LiveModel {
                    states: all_ready_noted(model.states, completed@.take(i as int)),
                    ..model
                }),
                actions@ == start + ready_actions(model.states, completed@.take(i as int)),
            decreases completed@.len() - i,
        {
            let namespace: NamespaceId = completed[i];
            let ghost done = completed@.take(i as int);
            let ghost next = completed@.take(i + 1);
            assert(!done.contains(namespace));
            assert(ready_due(self@.states, namespace) == ready_due(model.states, namespace));
            let ready = self.state.may_emit_ready(&namespace);
            if let Some(true) = ready {
                actions.push(Action::Emit { namespace, event: Event::PendingContentReady });
            }
            proof {
                assert(next =~= done.push(namespace));
                assert forall|n: NamespaceId| next.contains(n) <==> done.contains(n) || n
                    == namespace by {
                    if done.contains(n) {
                        assert(next[done.index_of(n)] == n);
                    }
                    assert(next[i as int] == namespace);
                }
                assert(self@.states =~= all_ready_noted(model.states, next));
                lemma_filter_take(completed@, due, i as int);
                assert(actions@ =~= start + ready_actions(model.states, next));
            }
            i = i + 1;
        }
        assert(completed@.take(i as int) =~= completed@);
    }

    /// A message came, at the given time.
    pub(crate) fn on_actor_message(&mut self, msg: ToLiveActor, now: SystemTime) -> (r: Step)
        requires
            old(self).wf(),
        ensures
            final(self).wf(),
            message_taken(old(self)@, msg, now, final(self)@, r),
    {
        match msg {
            ToLiveActor::StartSync { namespace, peers } => self.start_sync(namespace, peers),
            ToLiveActor::Leave { namespace, kill_subscribers } => self.leave(
                namespace,
                kill_subscribers,
            ),
            ToLiveActor::Shutdown => Step::ask(Next::Stop),
            ToLiveActor::Subscribe { namespace, sender } => {
                self.subscribers.subscribe(namespace, sender);
                Step::ask(Next::Nothing)
            },
            ToLiveActor::HandleConnection => Step::ask(Next::ServeConnection),
            ToLiveActor::AcceptSyncRequest { namespace, peer } => {
                let outcome = self.accept_sync_request(namespace, peer, now);
                Step::ask(Next::Answer(outcome))
            },
            ToLiveActor::IncomingSyncReport { from, report } => self.on_sync_report(from, report),
            ToLiveActor::NeighborContentReady { namespace, node, hash } => {
                self.on_neighbor_content_ready(namespace, node, hash)
            },
            ToLiveActor::NeighborUp { namespace, peer } => {
                let reason = SyncReason::NewNeighbor;
                let mut actions: Vec<Action> = Vec::new();
                self.sync_with_peer(namespace, peer, reason, now, &mut actions);
                actions.push(Action::Emit { namespace, event: Event::NeighborUp(peer) });
                assert(actions@ =~= connect_actions(
                    old(self)@.states,
                    namespace,
                    peer,
                    reason,
                ).push(Action::Emit { namespace, event: Event::NeighborUp(peer) }));
                Step::act(actions)
            },
            ToLiveActor::NeighborDown { namespace, peer } => {
                let mut actions: Vec<Action> = Vec::new();
                actions.push(Action::Emit { namespace, event: Event::NeighborDown(peer) });
                assert(actions@ =~= seq![
                    Action::Emit { namespace, event: Event::NeighborDown(peer) },
                ]);
                Step::act(actions)
            },
        }
    }

    /// A document is to be synced. One that is not synced yet has to be opened first.
    pub(crate) fn start_sync(&self, namespace: NamespaceId, peers: Vec<EndpointAddr>) -> (r: Step)
        requires
            self.wf(),
        ensures
            r.asks_only(
                if self@.states.contains_key(namespace) {
                    Next::ReadSyncPeers { namespace, peers }
                } else {
                    Next::OpenReplica { namespace, peers }
                },
            ),
    {
        if self.state.is_syncing(&namespace) {
            Step::ask(Next::ReadSyncPeers { namespace, peers })
        } else {
            Step::ask(Next::OpenReplica { namespace, peers })
        }
    }

    /// A document was opened, and is synced from now on, or could not be opened.
    fn on_opened(&mut self, namespace: NamespaceId, peers: Vec<EndpointAddr>, opened: bool) -> (r:
        Step)
        requires
            old(self).wf(),
        ensures
            final(self).wf(),
            if opened {
                &&& final(self)@ == (LiveModel {
                    states: namespace_opened(old(self)@.states, namespace),
                    ..old(self)@
                })
                &&& r.asks_only(Next::ReadSyncPeers { namespace, peers })
            } else {
                final(self)@ == old(self)@ && r.does_nothing()
            },
    {
        if opened {
            self.state.insert(namespace);
            Step::ask(Next::ReadSyncPeers { namespace, peers })
        } else {
            Step::ask(Next::Nothing)
        }
    }

    /// The swarm of a document was joined, and its first peers are to be synced with, or it could
    /// not be joined.
    fn on_joined(
        &mut self,
        namespace: NamespaceId,
        peer_ids: Vec<PublicKey>,
        joined: bool,
        now: SystemTime,
    ) -> (r: Step)
        requires
            old(self).wf(),
        ensures
            final(self).wf(),
            if joined {
                &&& final(self)@ == (LiveModel {
                    states: peers_joined(old(self)@.states, namespace, peer_ids@, now),
                    ..old(self)@
                })
                &&& r.actions@ == join_actions(old(self)@.states, namespace, peer_ids@, now)
                &&& r.next is Nothing
            } else {
                final(self)@ == old(self)@ && r.does_nothing()
            },
    {
        if !joined {
            return Step::ask(Next::Nothing);
        }
        let ghost model = self@;
        let mut actions: Vec<Action> = Vec::new();
        let mut i: usize = 0;
        assert(peer_ids@.take(0) =~= Seq::<PublicKey>::empty());
        while i < peer_ids.len()
            invariant
                i <= peer_ids@.len(),
                self.wf(),
                self@ == (LiveModel {
                    states: peers_joined(model.states, namespace, peer_ids@.take(i as int), now),
                    ..model
                }),
                actions@ == join_actions(model.states, namespace, peer_ids@.take(i as int), now),
            decreases peer_ids@.len() - i,
        {
            assert(peer_ids@.take(i + 1).drop_last() =~= peer_ids@.take(i as int));
            self.sync_with_peer(
                namespace,
                peer_ids[i],
                SyncReason::DirectJoin,
                now,
                &mut actions,
            );
            i = i + 1;
        }
        assert(peer_ids@.take(i as int) =~= peer_ids@);
        Step::act(actions)
    }

    /// A document is no longer to be synced.
    pub(crate) fn leave(&mut self, namespace: NamespaceId, kill_subscribers: bool) -> (r: Step)
        requires
            old(self).wf(),
        ensures
            final(self).wf(),
            if old(self)@.states.contains_key(namespace) {
                &&& final(self)@ == (LiveModel {
                    states: old(self)@.states.remove(namespace),
                    ..old(self)@
                })
                &&& r.asks_only(Next::CloseReplica { namespace, kill_subscribers })
            } else {
                &&& final(self)@ == subscribers_left(old(self)@, namespace, kill_subscribers)
                &&& r.does_nothing()
            },
    {
        if self.state.remove(&namespace) {
            return Step::ask(Next::CloseReplica { namespace, kill_subscribers });
        }
        assert(self@.states =~= old(self)@.states);
        if kill_subscribers {
            self.subscribers.remove(&namespace);
        }
        Step::ask(Next::Nothing)
    }

    /// A document that is no longer synced was closed, or could not be closed.
    fn on_closed(&mut self, namespace: NamespaceId, kill_subscribers: bool, closed: bool) -> (r:
        Step)
        requires
            old(self).wf(),
        ensures
            final(self).wf(),
            if closed {
                &&& final(self)@ == subscribers_left(old(self)@, namespace, kill_subscribers)
                &&& r.actions@ == seq![Action::QuitGossip { namespace }]
                &&& r.next is Nothing
            } else {
                final(self)@ == old(self)@ && r.does_nothing()
            },
    {
        if !closed {
            return Step::ask(Next::Nothing);
        }
        let mut actions: Vec<Action> = Vec::new();
        actions.push(Action::QuitGossip { namespace });
        assert(actions@ =~= seq![Action::QuitGossip { namespace }]);
        if kill_subscribers {
            self.subscribers.remove(&namespace);
        }
        Step::act(actions)
    }

    /// A peer reports the outcome of a sync.
    pub(crate) fn on_sync_report(&self, from: PublicKey, report: SyncReport) -> (r: Step)
        requires
            self.wf(),
        ensures
            r.asks_only(
                if self@.states.contains_key(report.namespace) {
                    Next::CheckNews { from, report }
                } else {
                    Next::Nothing
                },
            ),
    {
        if self.state.is_syncing(&report.namespace) {
            Step::ask(Next::CheckNews { from, report })
        } else {
            Step::ask(Next::Nothing)
        }
    }

    /// It is known whether a report of a peer holds news. If it does, a sync is asked for.
    fn on_news(
        &mut self,
        namespace: NamespaceId,
        from: PublicKey,
        news: News,
        now: SystemTime,
    ) -> (r: Vec<Action>)
        requires
            old(self).wf(),
        ensures
            final(self).wf(),
            news_taken(old(self)@, namespace, from, news, now, final(self)@, r@),
    {
        let mut actions: Vec<Action> = Vec::new();
        if let News::Updated = news {
            let reason = SyncReason::SyncReport;
            self.sync_with_peer(namespace, from, reason, now, &mut actions);
            assert(actions@ =~= connect_actions(old(self)@.states, namespace, from, reason));
        }
        actions
    }

    /// A peer has content available.
    pub(crate) fn on_neighbor_content_ready(
        &mut self,
        namespace: NamespaceId,
        node: PublicKey,
        hash: ContentHash,
    ) -> (r: Step)
        requires
            old(self).wf(),
        ensures
            final(self).wf(),
            r.actions@ == Seq::<Action>::empty(),
            flush_step_taken(
                LiveModel {
                    pending: old(self)@.pending.push(
                        DownloadCandidate { namespace, hash, node, only_if_missing: true },
                    ),
                    ..old(self)@
                },
                final(self)@,
                r.next,
            ),
    {
        self.queue_download(namespace, hash, node, true);
        self.flush_step(Vec::new())
    }

    /// Takes note of an input, at the given time.
    pub fn on_input_at(&mut self, input: Input, now: SystemTime) -> (r: Step)
        requires
            old(self).wf(),
        ensures
            final(self).wf(),
            input_taken(old(self)@, input, now, final(self)@, r),
    {
        match input {
            Input::Message(Some(msg)) => self.on_actor_message(msg, now),
            Input::Message(None) => Step::ask(Next::Fail(LiveError::InboxClosed)),
            Input::ReplicaEvent(Some(event)) => self.on_replica_events(0, Some(event)),
            Input::ReplicaEvent(None) => Step::ask(Next::Fail(LiveError::ReplicaEventsClosed)),
            Input::BatchEvent { handled, event } => self.on_replica_events(handled, event),
            Input::SyncConnect(Some(end)) => self.on_sync_via_connect_finished(
                end.namespace,
                end.peer,
                end.reason,
                end.result,
                now,
            ),
            Input::SyncConnect(None) => Step::ask(Next::Fail(LiveError::ConnectTaskFailed)),
            Input::SyncAccept(Some(res)) => self.on_sync_via_accept_finished(res, now),
            Input::SyncAccept(None) => Step::ask(Next::Fail(LiveError::AcceptTaskFailed)),
            Input::Download(Some(end)) => Step::act(self.on_download_ready(end.hash, end.success)),
            Input::Download(None) => Step::ask(Next::Fail(LiveError::DownloadTaskFailed)),
            Input::Opened { namespace, peers, opened } => self.on_opened(namespace, peers, opened),
            Input::SyncPeers { namespace, peers, stored } => {
                let all = with_stored_peers(peers, stored);
                let ghost extended = all@;
                let plan = join_peers(all);
                assert(peers_extended(peers@, stored, extended) && plan.is_for(extended));
                Step::ask(Next::JoinSwarm { namespace, plan })
            },
            Input::Joined { namespace, peer_ids, joined } => self.on_joined(
                namespace,
                peer_ids,
                joined,
                now,
            ),
            Input::Closed { namespace, kill_subscribers, closed } => self.on_closed(
                namespace,
                kill_subscribers,
                closed,
            ),
            Input::News { namespace, from, news } => Step::act(
                self.on_news(namespace, from, news, now),
            ),
            Input::Statuses { query, statuses } => Step::act(
                self.on_statuses(query, statuses, now),
            ),
        }
    }

    /// Takes note of an input, at the present time.
    pub fn on_input(&mut self, input: Input) -> (r: Step)
        requires
            old(self).wf(),
        ensures
            final(self).wf(),
            exists|now: SystemTime| #[trigger]
                input_taken(old(self)@, input, now, final(self)@, r),
    {
        self.on_input_at(input, now())
    }

    /// Answers a sync request of a peer, at the given time.
    pub fn accept_sync_request(
        &mut self,
        namespace: NamespaceId,
        peer: PublicKey,
        now: SystemTime,
    ) -> (r: AcceptOutcome)
        requires
            old(self).wf(),
        ensures
            final(self).wf(),
            r == accept_answer(old(self)@.states, old(self)@.me, namespace, peer),
            final(self)@ == (LiveModel {
                states: request_answered(
                    old(self)@.states,
                    old(self)@.me,
                    namespace,
                    peer,
                    now,
                ),
                ..old(self)@
            }),
    {
        self.state.accept_request(&self.me, &namespace, peer, now)
    }

    /// The senders that an event of a document goes to, if it has any.
    pub fn senders(&self, namespace: &NamespaceId) -> (r: Option<&Vec<Sender<Event>>>)
        requires
            self.wf(),
        ensures
            r is Some <==> self@.subscribers.contains_key(*namespace),
            r matches Some(senders) ==> senders@ == self@.subscribers[*namespace],
    {
        self.subscribers.senders(namespace)
    }

    /// An event of a document was sent. Subscribers that it could not be delivered to are dropped.
    /// Tells whether there were any subscribers.
    pub fn on_emitted(&mut self, namespace: &NamespaceId, delivered: &Vec<bool>) -> (r: bool)
        requires
            old(self).wf(),
            delivered@.len() == senders_of(old(self)@.subscribers, *namespace).len(),
        ensures
            final(self).wf(),
            r == old(self)@.subscribers.contains_key(*namespace),
            final(self)@ == (LiveModel {
                subscribers: lists_settled(old(self)@.subscribers, *namespace, delivered@),
                ..old(self)@
            }),
    {
        self.subscribers.settle(namespace, delivered)
    }

    /// The peers known to have content, each once.
    pub fn find_providers(&self, hash: &ContentHash) -> (r: Vec<PublicKey>)
        requires
            self.wf(),
        ensures
            enumerates(r@, providers_of(self@.providers, *hash)),
    {
        self.hash_providers.find_providers(hash)
    }

    /// The engine stops: nobody is told of anything any more.
    pub fn shutdown(&mut self)
        requires
            old(self).wf(),
        ensures
            final(self).wf(),
            final(self)@ == (LiveModel { subscribers: Map::empty(), ..old(self)@ }),
    {
        self.subscribers.clear();
    }
}

/// The peers to start a sync with: the given ones, and those that are stored for the document.
///
/// Stored bytes that are no key are left out, and so are all of them if they could not be read:
/// they are of use, but not needed.
pub fn with_stored_peers(peers: Vec<EndpointAddr>, stored: StoredPeers) -> (r: Vec<EndpointAddr>)
    ensures
        peers_extended(peers@, stored, r@),
{
    let ghost given = peers@;
    let mut r = peers;
    if let StoredPeers::Known(keys) = stored {
        let ghost valid = |key: [u8; 32]| is_public_key(key@);
        let ghost plain = |key: [u8; 32]| key@;
        let ghost id = |peer: EndpointAddr| peer.id.bytes();
        let mut i: usize = 0;
        proof {
            assert(keys@.take(0).filter(valid) =~= Seq::<[u8; 32]>::empty()) by {
                reveal(Seq::filter);
            }
            assert(r@.skip(given.len() as int).map_values(id) =~= keys@.take(0).filter(
                valid,
            ).map_values(plain));
        }
        while i < keys.len()
            invariant
                i <= keys@.len(),
                valid == (|key: [u8; 32]| is_public_key(key@)),
                plain == (|key: [u8; 32]| key@),
                id == (|peer: EndpointAddr| peer.id.bytes()),
                given.len() <= r@.len(),
                r@.take(given.len() as int) == given,
                forall|j: int|
                    given.len() <= j < r@.len() ==> (#[trigger] r@[j]).addrs@
                        == Seq::<iroh::TransportAddr>::empty(),
                r@.skip(given.len() as int).map_values(id) == keys@.take(i as int).filter(
                    valid,
                ).map_values(plain),
            decreases keys@.len() - i,
        {
            let ghost before = r@;
            proof {
                lemma_filter_take(keys@, valid, i as int);
            }
            if let Ok(key) = PublicKey::from_bytes(&keys[i]) {
                r.push(EndpointAddr::new(key));
                assert(r@.take(given.len() as int) =~= given) by {
                    assert(before.take(given.len() as int) =~= r@.take(given.len() as int));
                }
                assert(r@.skip(given.len() as int).map_values(id) =~= before.skip(
                    given.len() as int,
                ).map_values(id).push(key.bytes()));
                assert(keys@.take(i + 1).filter(valid).map_values(plain) =~= keys@.take(
                    i as int,
                ).filter(valid).map_values(plain).push(keys@[i as int]@));
            }
            i = i + 1;
        }
        assert(keys@.take(i as int) =~= keys@);
    } else {
        assert(r@.take(given.len() as int) =~= given);
        assert(r@.skip(given.len() as int).map_values(|peer: EndpointAddr| peer.id.bytes())
            =~= stored_keys(stored));
    }
    assert(r@.take(given.len() as int) =~= given);
    r
}

/// What it takes to join a swarm with the given peers. The addresses of a peer are noted if there
/// are any; one of which none is known is joined with all the same.
pub fn join_peers(peers: Vec<EndpointAddr>) -> (r: JoinPlan)
    ensures
        r.is_for(peers@),
{
    let ghost given = peers@;
    let ghost reachable = |peer: EndpointAddr| peer.addrs@.len() > 0;
    let mut peers = peers;
    let mut peer_ids: Vec<PublicKey> = Vec::new();
    let mut i: usize = 0;
    while i < peers.len()
        invariant
            i <= peers@.len(),
            peers@ == given,
            peer_ids@.len() == i,
            forall|j: int| 0 <= j < i ==> peer_ids@[j] == given[j].id,
        decreases peers@.len() - i,
    {
        peer_ids.push(peers[i].id);
        i = i + 1;
    }
    assert(peer_ids@ =~= given.map_values(|peer: EndpointAddr| peer.id));
    // from the back, so that removing does not shift the peers still to be looked at
    while i > 0
        invariant
            i <= given.len(),
            reachable == (|peer: EndpointAddr| peer.addrs@.len() > 0),
            peers@.len() >= i,
            peers@.take(i as int) == given.take(i as int),
            peers@.skip(i as int) == given.skip(i as int).filter(reachable),
        decreases i,
    {
        i = i - 1;
        let ghost before = peers@;
        assert(before[i as int] == before.take(i + 1)[i as int]);
        assert(before[i as int] == given[i as int]);
        proof {
            lemma_filter_skip(given, reachable, i as int);
        }
        if peers[i].is_empty() {
            peers.remove(i);
            assert(peers@.skip(i as int) =~= before.skip(i + 1));
        } else {
            assert(peers@.skip(i as int) =~= seq![given[i as int]] + before.skip(i + 1));
        }
        assert(peers@.take(i as int) =~= before.take(i + 1).take(i as int));
        assert(given.take(i as int) =~= given.take(i + 1).take(i as int));
    }
    assert(given.skip(0) =~= given);
    assert(peers@.skip(0) =~= peers@);
    JoinPlan { addresses: peers, peer_ids }
}

/// What filtering one more item at the front of a sequence adds to the result.
proof fn lemma_filter_skip<T>(s: Seq<T>, pred: spec_fn(T) -> bool, i: int)
    requires
        0 <= i < s.len(),
    ensures
        s.skip(i).filter(pred) == if pred(s[i]) {
            seq![s[i]] + s.skip(i + 1).filter(pred)
        } else {
            s.skip(i + 1).filter(pred)
        },
{
    let head = seq![s[i]];
    assert(s.skip(i) =~= head + s.skip(i + 1));
    Seq::filter_distributes_over_add(head, s.skip(i + 1), pred);
    assert(head.drop_last() =~= Seq::<T>::empty());
    reveal_with_fuel(Seq::<_>::filter, 2);
    assert(head.filter(pred) =~= if pred(s[i]) { head } else { Seq::empty() });
}

/// What taking one more item of a sequence adds to the set of the items.
proof fn lemma_take_to_set<T>(s: Seq<T>, i: int)
    requires
        0 <= i < s.len(),
    ensures
        s.take(i + 1).to_set() == s.take(i).to_set().insert(s[i]),
{
    let done = s.take(i);
    let next = s.take(i + 1);
    assert(next[i] == s[i]);
    assert forall|item: T| done.contains(item) implies next.contains(item) by {
        assert(next[done.index_of(item)] == item);
    }
    assert forall|item: T| next.contains(item) && item != s[i] implies done.contains(item) by {
        assert(done[next.index_of(item)] == item);
    }
    assert(next.to_set() =~= done.to_set().insert(s[i]));
}

/// The statuses that a batch request for a number of hashes gave, if they can be used: one for
/// each hash. If not, the hashes have to be asked about one by one.
pub fn batch_statuses(requested: usize, reply: Option<Vec<BlobStatus>>) -> (r: Option<
    Vec<BlobStatus>,
>)
    ensures
        r == usable_batch(requested as nat, reply),
{
    match reply {
        Some(statuses) => {
            if statuses.len() == requested {
                Some(statuses)
            } else {
                None
            }
        },
        None => None,
    }
}

/// The statuses of hashes that were asked about one by one. Content whose status cannot be told
/// counts as not stored.
pub fn status_hashes_one_by_one(replies: Vec<Option<BlobStatus>>) -> (r: Vec<BlobStatus>)
    ensures
        r@ == replies@.map_values(|reply: Option<BlobStatus>| status_or_not_found(reply)),
{
    let mut r: Vec<BlobStatus> = Vec::new();
    let mut i: usize = 0;
    while i < replies.len()
        invariant
            i <= replies@.len(),
            r@.len() == i,
            forall|j: int|
                0 <= j < i ==> r@[j] == status_or_not_found(#[trigger] replies@[j]),
        decreases replies@.len() - i,
    {
        let status: BlobStatus = match replies[i] {
            Some(status) => status,
            None => BlobStatus::NotFound,
        };
        r.push(status);
        i = i + 1;
    }
    assert(r@ =~= replies@.map_values(|reply: Option<BlobStatus>| status_or_not_found(reply)));
    r
}

/// The answer to a sync request, as the engine gave it. If it gave none, the request is turned
/// down.
pub fn accept_reply(reply: Option<AcceptOutcome>) -> (r: AcceptOutcome)
    ensures
        r == match reply {
            Some(outcome) => outcome,
            None => AcceptOutcome::Reject(AbortReason::InternalServerError),
        },
{
    match reply {
        Some(outcome) => outcome,
        None => AcceptOutcome::Reject(AbortReason::InternalServerError),
    }
}

/// The candidates by hash.
fn group_by_hash(pending: Vec<DownloadCandidate>) -> (r: Vec<HashGroup>)
    ensures
        is_grouping(pending@, r@),
{
    let mut by_hash: SortedMap<ContentHash, Vec<DownloadCandidate>> = SortedMap::new();
    let mut i: usize = 0;
    while i < pending.len()
        invariant
            i <= pending@.len(),
            by_hash.wf(),
            forall|hash: ContentHash| #[trigger]
                by_hash@.contains_key(hash) ==> by_hash@[hash]@ == candidates_for(
                    pending@.take(i as int),
                    hash,
                ) && by_hash@[hash]@.len() > 0,
            forall|hash: ContentHash|
                !#[trigger] by_hash@.contains_key(hash) ==> candidates_for(
                    pending@.take(i as int),
                    hash,
                ) == Seq::<DownloadCandidate>::empty(),
            forall|j: int| 0 <= j < i ==> by_hash@.contains_key((#[trigger] pending@[j]).hash),
        decreases pending@.len() - i,
    {
        let candidate: DownloadCandidate = pending[i];
        proof {
            assert forall|hash: ContentHash| #[trigger]
                candidates_for(pending@.take(i + 1), hash) == if candidate.hash == hash {
                    candidates_for(pending@.take(i as int), hash).push(candidate)
                } else {
                    candidates_for(pending@.take(i as int), hash)
                } by {
                lemma_filter_take(
                    pending@,
                    |candidate: DownloadCandidate| candidate.hash == hash,
                    i as int,
                );
            }
        }
        match by_hash.get_mut(&candidate.hash) {
            Some(group) => {
                group.push(candidate);
            },
            None => {
                let mut group: Vec<DownloadCandidate> = Vec::new();
                group.push(candidate);
                by_hash.insert(candidate.hash, group);
            },
        }
        i = i + 1;
    }
    assert(pending@.take(i as int) =~= pending@);
    let ghost all = by_hash@;
    let hashes = by_hash.keys();
    let mut groups: Vec<HashGroup> = Vec::new();
    let mut k: usize = 0;
    while k < hashes.len()
        invariant
            k <= hashes@.len(),
            by_hash.wf(),
            hashes@.no_duplicates(),
            hashes@.to_set() == all.dom(),
            forall|hash: ContentHash| #[trigger]
                all.contains_key(hash) ==> all[hash]@ == candidates_for(pending@, hash)
                    && all[hash]@.len() > 0,
            forall|j: int|
                k <= j < hashes@.len() ==> by_hash@.contains_key(#[trigger] hashes@[j])
                    && by_hash@[hashes@[j]] == all[hashes@[j]],
            groups@.len() == k,
            forall|j: int|
                0 <= j < k ==> (#[trigger] groups@[j]).hash == hashes@[j]
                    && groups@[j].candidates == all[hashes@[j]],
        decreases hashes@.len() - k,
    {
        let hash: ContentHash = hashes[k];
        match by_hash.remove(&hash) {
            Some(candidates) => {
                groups.push(HashGroup { hash, candidates });
            },
            None => {
                assert(false);
            },
        }
        k = k + 1;
    }
    proof {
        assert forall|j: int| 0 <= j < groups@.len() implies {
            &&& (#[trigger] groups@[j]).candidates@ == candidates_for(pending@, groups@[j].hash)
            &&& groups@[j].candidates@.len() > 0
        } by {
            assert(hashes@.to_set().contains(hashes@[j]));
            assert(all.contains_key(hashes@[j]));
        }
        assert forall|a: int, b: int| 0 <= a < b < groups@.len() implies (
        #[trigger] groups@[a]).hash != (#[trigger] groups@[b]).hash by {
            assert(hashes@[a] != hashes@[b]);
        }
        assert forall|j: int| 0 <= j < pending@.len() implies has_group(
            groups@,
            (#[trigger] pending@[j]).hash,
        ) by {
            assert(all.contains_key(pending@[j].hash));
            assert(hashes@.to_set().contains(pending@[j].hash));
            let g = hashes@.index_of(pending@[j].hash);
            assert(groups@[g].hash == pending@[j].hash);
        }
    }
    groups
}

} // verus!

//! Which documents are synced, and where each of their peers stands.

use n0_future::time::SystemTime;
use vstd::prelude::*;

use crate::ids::{Id, NamespaceId, PublicKey};
use crate::sorted::{before, comes_before, SortedMap};

verus! {

/// Why a sync was started from this side.
#[derive(Clone, Copy, Debug, PartialEq, Eq, Structural)]
pub enum SyncReason {
    /// A direct request to join.
    DirectJoin,
    /// The peer is a new neighbor in the swarm.
    NewNeighbor,
    /// The peer reported news.
    SyncReport,
    /// News were reported while a sync was running.
    Resync,
}

/// Which side started a sync.
#[derive(Clone, Copy, Debug, PartialEq, Eq, Structural)]
pub enum Origin {
    /// This side did.
    Connect(SyncReason),
    /// The peer did, and this side accepted.
    Accept,
}

/// Why a sync request is turned down.
#[derive(Clone, Copy, Debug, PartialEq, Eq, Structural)]
pub enum AbortReason {
    /// The document is not synced.
    NotFound,
    /// A sync of the document with the peer is already running.
    AlreadySyncing,
    /// The request could not be decided.
    InternalServerError,
}

/// The answer to a sync request.
#[derive(Clone, Copy, Debug, PartialEq, Eq, Structural)]
pub enum AcceptOutcome {
    /// The sync may run.
    Allow,
    /// The sync must not run.
    Reject(AbortReason),
}

/// Whether a sync with a peer is running.
#[derive(Clone, Copy, Debug)]
pub enum SyncState {
    /// No sync is running.
    Idle,
    /// A sync is running.
    Running {
        /// When it was started.
        start: SystemTime,
        /// Which side started it.
        origin: Origin,
    },
}

/// Where a document stands with a peer.
#[derive(Clone, Copy, Debug)]
pub struct PeerState {
    /// Whether a sync is running.
    pub sync: SyncState,
    /// Whether another sync is due when the running one ends.
    pub resync_requested: bool,
}

/// A document as the sync state describes it.
#[verifier::ext_equal]
pub struct NamespaceModel {
    /// Where the document stands with the peers it was synced with.
    pub peers: Map<PublicKey, PeerState>,
    /// Whether the end of the last pending download is to be announced.
    pub may_emit_ready: bool,
}

/// The documents that are synced.
pub type States = Map<NamespaceId, NamespaceModel>;

/// A peer that no sync is running with.
pub open spec fn idle_peer() -> PeerState {
    PeerState { sync: SyncState::Idle, resync_requested: false }
}

/// A peer that a sync is running with.
pub open spec fn running_peer(start: SystemTime, origin: Origin) -> PeerState {
    PeerState { sync: SyncState::Running { start, origin }, resync_requested: false }
}

/// Where a document stands with a peer.
pub open spec fn peer_state(states: States, namespace: NamespaceId, peer: PublicKey) -> PeerState {
    if states.contains_key(namespace) && states[namespace].peers.contains_key(peer) {
        states[namespace].peers[peer]
    } else {
        idle_peer()
    }
}

/// The states with another state of one peer.
pub open spec fn with_peer(
    states: States,
    namespace: NamespaceId,
    peer: PublicKey,
    state: PeerState,
) -> States {
    states.insert(
        namespace,
        NamespaceModel {
            peers: states[namespace].peers.insert(peer, state),
            may_emit_ready: states[namespace].may_emit_ready,
        },
    )
}

/// A sync may be started from this side: the document is synced, and no sync of it with the peer
/// is running.
pub open spec fn may_connect(states: States, namespace: NamespaceId, peer: PublicKey) -> bool {
    states.contains_key(namespace) && peer_state(states, namespace, peer).sync is Idle
}

/// The states after a sync was asked for from this side. While another one is running, news that
/// a peer reports are kept for later.
pub open spec fn connect_started(
    states: States,
    namespace: NamespaceId,
    peer: PublicKey,
    reason: SyncReason,
    now: SystemTime,
) -> States {
    let state = peer_state(states, namespace, peer);
    if may_connect(states, namespace, peer) {
        with_peer(states, namespace, peer, running_peer(now, Origin::Connect(reason)))
    } else if states.contains_key(namespace) && reason == SyncReason::SyncReport {
        with_peer(
            states,
            namespace,
            peer,
            PeerState { sync: state.sync, resync_requested: true },
        )
    } else {
        states
    }
}

/// When both sides dial at once, the one with the greater identifier accepts.
pub open spec fn accepts_on_tie(me: PublicKey, peer: PublicKey) -> bool {
    before(peer.bytes(), me.bytes())
}

/// The answer to a sync request of a peer.
pub open spec fn accept_answer(
    states: States,
    me: PublicKey,
    namespace: NamespaceId,
    peer: PublicKey,
) -> AcceptOutcome {
    if !states.contains_key(namespace) {
        AcceptOutcome::Reject(AbortReason::NotFound)
    } else {
        match peer_state(states, namespace, peer).sync {
            SyncState::Idle => AcceptOutcome::Allow,
            SyncState::Running { origin: Origin::Connect(_), .. } => if accepts_on_tie(me, peer) {
                AcceptOutcome::Allow
            } else {
                AcceptOutcome::Reject(AbortReason::AlreadySyncing)
            },
            SyncState::Running { origin: Origin::Accept, .. } => AcceptOutcome::Reject(
                AbortReason::AlreadySyncing,
            ),
        }
    }
}

/// The states after a sync request of a peer was answered. A request that is allowed owns the
/// state from then on; one that is rejected changes nothing.
pub open spec fn request_answered(
    states: States,
    me: PublicKey,
    namespace: NamespaceId,
    peer: PublicKey,
    now: SystemTime,
) -> States {
    if accept_answer(states, me, namespace, peer) is Allow {
        with_peer(states, namespace, peer, running_peer(now, Origin::Accept))
    } else {
        states
    }
}

/// When the running sync was started and whether another one is due, if the one that ended is
/// the one that runs.
pub open spec fn ended(
    states: States,
    namespace: NamespaceId,
    peer: PublicKey,
    origin: Origin,
) -> Option<(SystemTime, bool)> {
    match peer_state(states, namespace, peer) {
        PeerState { sync: SyncState::Running { start, origin: owner }, resync_requested } =>
            if owner == origin {
                Some((start, resync_requested))
            } else {
                None
            },
        _ => None,
    }
}

/// The states after a sync ended. The end of a sync that does not own the state changes nothing.
pub open spec fn sync_ended(
    states: States,
    namespace: NamespaceId,
    peer: PublicKey,
    origin: Origin,
) -> States {
    if ended(states, namespace, peer, origin) is Some {
        with_peer(states, namespace, peer, idle_peer())
    } else {
        states
    }
}

/// The states after it was noted whether the end of the last pending download is to be announced.
pub open spec fn ready_noted(states: States, namespace: NamespaceId, value: bool) -> States {
    if states.contains_key(namespace) {
        states.insert(
            namespace,
            NamespaceModel { peers: states[namespace].peers, may_emit_ready: value },
        )
    } else {
        states
    }
}

/// Whether the end of the last pending download is to be announced.
pub open spec fn ready_due(states: States, namespace: NamespaceId) -> bool {
    states.contains_key(namespace) && states[namespace].may_emit_ready
}

struct NamespaceState {
    peers: SortedMap<PublicKey, PeerState>,
    may_emit_ready: bool,
}

impl NamespaceState {
    spec fn model(self) -> NamespaceModel {
        NamespaceModel { peers: self.peers@, may_emit_ready: self.may_emit_ready }
    }
}

/// Sync state per document and peer.
pub struct NamespaceStates {
    namespaces: SortedMap<NamespaceId, NamespaceState>,
}

impl View for NamespaceStates {
    type V = States;

    closed spec fn view(&self) -> States {
        Map::new(
            |namespace: NamespaceId| self.namespaces@.contains_key(namespace),
            |namespace: NamespaceId| self.namespaces@[namespace].model(),
        )
    }
}

impl NamespaceStates {
    /// The tables are consistent.
    pub closed spec fn wf(self) -> bool {
        &&& self.namespaces.wf()
        &&& forall|namespace: NamespaceId| #[trigger]
            self.namespaces@.contains_key(namespace) ==> self.namespaces@[namespace].peers.wf()
    }

    /// Nothing is synced.
    pub fn new() -> (r: Self)
        ensures
            r.wf(),
            r@ == Map::<NamespaceId, NamespaceModel>::empty(),
    {
        let r = NamespaceStates { namespaces: SortedMap::new() };
        assert(r@ =~= Map::<NamespaceId, NamespaceModel>::empty());
        r
    }

    /// Whether the document is synced.
    pub fn is_syncing(&self, namespace: &NamespaceId) -> (r: bool)
        requires
            self.wf(),
        ensures
            r == self@.contains_key(*namespace),
    {
        self.namespaces.contains_key(namespace)
    }

    /// The document is synced from now on, if it was not.
    pub fn insert(&mut self, namespace: NamespaceId)
        requires
            old(self).wf(),
        ensures
            final(self).wf(),
            final(self)@ == namespace_opened(old(self)@, namespace),
    {
        if !self.namespaces.contains_key(&namespace) {
            let state = NamespaceState { peers: SortedMap::new(), may_emit_ready: false };
            self.namespaces.insert(namespace, state);
        }
        assert(self@ =~= namespace_opened(old(self)@, namespace));
    }

    /// The document is no longer synced. Tells whether it was.
    pub fn remove(&mut self, namespace: &NamespaceId) -> (r: bool)
        requires
            old(self).wf(),
        ensures
            final(self).wf(),
            final(self)@ == old(self)@.remove(*namespace),
            r == old(self)@.contains_key(*namespace),
    {
        let removed = self.namespaces.remove(namespace);
        assert(self@ =~= old(self)@.remove(*namespace));
        removed.is_some()
    }

    /// Where the document stands with the peer.
    fn peer(&self, namespace: &NamespaceId, peer: &PublicKey) -> (r: PeerState)
        requires
            self.wf(),
        ensures
            r == peer_state(self@, *namespace, *peer),
    {
        match self.namespaces.get(namespace) {
            Some(state) => match state.peers.get(peer) {
                Some(peer) => *peer,
                None => PeerState { sync: SyncState::Idle, resync_requested: false },
            },
            None => PeerState { sync: SyncState::Idle, resync_requested: false },
        }
    }

    fn set_peer(&mut self, namespace: &NamespaceId, peer: PublicKey, peer_state: PeerState)
        requires
            old(self).wf(),
            old(self)@.contains_key(*namespace),
        ensures
            final(self).wf(),
            final(self)@ == with_peer(old(self)@, *namespace, peer, peer_state),
    {
        match self.namespaces.get_mut(namespace) {
            Some(state) => {
                state.peers.insert(peer, peer_state);
            },
            None => {},
        }
        assert(self@ =~= with_peer(old(self)@, *namespace, peer, peer_state));
    }

    /// Asks to start a sync from this side. Tells whether it may run.
    pub fn start_connect(
        &mut self,
        namespace: &NamespaceId,
        peer: PublicKey,
        reason: SyncReason,
        now: SystemTime,
    ) -> (r: bool)
        requires
            old(self).wf(),
        ensures
            final(self).wf(),
            r == may_connect(old(self)@, *namespace, peer),
            final(self)@ == connect_started(old(self)@, *namespace, peer, reason, now),
    {
        if !self.is_syncing(namespace) {
            return false;
        }
        let state = self.peer(namespace, &peer);
        match state.sync {
            SyncState::Idle => {
                let sync = SyncState::Running { start: now, origin: Origin::Connect(reason) };
                self.set_peer(namespace, peer, PeerState { sync, resync_requested: false });
                true
            },
            SyncState::Running { .. } => {
                if reason == SyncReason::SyncReport {
                    self.set_peer(
                        namespace,
                        peer,
                        PeerState { sync: state.sync, resync_requested: true },
                    );
                }
                false
            },
        }
    }

    /// Answers a sync request of a peer.
    pub fn accept_request(
        &mut self,
        me: &PublicKey,
        namespace: &NamespaceId,
        peer: PublicKey,
        now: SystemTime,
    ) -> (r: AcceptOutcome)
        requires
            old(self).wf(),
        ensures
            final(self).wf(),
            r == accept_answer(old(self)@, *me, *namespace, peer),
            final(self)@ == request_answered(old(self)@, *me, *namespace, peer, now),
    {
        if !self.is_syncing(namespace) {
            return AcceptOutcome::Reject(AbortReason::NotFound);
        }
        let allowed = match self.peer(namespace, &peer).sync {
            SyncState::Idle => true,
            SyncState::Running { origin, .. } => match origin {
                Origin::Connect(_) => comes_before(peer.raw(), me.raw()),
                Origin::Accept => false,
            },
        };
        if allowed {
            let sync = SyncState::Running { start: now, origin: Origin::Accept };
            self.set_peer(namespace, peer, PeerState { sync, resync_requested: false });
            AcceptOutcome::Allow
        } else {
            AcceptOutcome::Reject(AbortReason::AlreadySyncing)
        }
    }

    /// A sync ended. If it is the one that runs, tells when it was started and whether another one
    /// is due; if not, nothing happens.
    pub fn finish(
        &mut self,
        namespace: &NamespaceId,
        peer: PublicKey,
        origin: &Origin,
    ) -> (r: Option<(SystemTime, bool)>)
        requires
            old(self).wf(),
        ensures
            final(self).wf(),
            r == ended(old(self)@, *namespace, peer, *origin),
            final(self)@ == sync_ended(old(self)@, *namespace, peer, *origin),
    {
        let state = self.peer(namespace, &peer);
        match state.sync {
            SyncState::Running { start, origin: owner } => {
                if owner == *origin {
                    self.set_peer(
                        namespace,
                        peer,
                        PeerState { sync: SyncState::Idle, resync_requested: false },
                    );
                    Some((start, state.resync_requested))
                } else {
                    None
                }
            },
            SyncState::Idle => None,
        }
    }

    /// Notes whether the end of the last pending download is to be announced.
    pub fn set_may_emit_ready(&mut self, namespace: &NamespaceId, value: bool)
        requires
            old(self).wf(),
        ensures
            final(self).wf(),
            final(self)@ == ready_noted(old(self)@, *namespace, value),
    {
        match self.namespaces.get_mut(namespace) {
            Some(state) => {
                state.may_emit_ready = value;
            },
            None => {},
        }
        assert(self@ =~= ready_noted(old(self)@, *namespace, value));
    }

    /// Tells whether the end of the last pending download is to be announced, which is then done
    /// with. `None` if the document is not synced.
    pub fn may_emit_ready(&mut self, namespace: &NamespaceId) -> (r: Option<bool>)
        requires
            old(self).wf(),
        ensures
            final(self).wf(),
            r is Some <==> old(self)@.contains_key(*namespace),
            r matches Some(due) ==> due == ready_due(old(self)@, *namespace),
            final(self)@ == ready_noted(old(self)@, *namespace, false),
    {
        let mut due: Option<bool> = None;
        match self.namespaces.get_mut(namespace) {
            Some(state) => {
                due = Some(state.may_emit_ready);
                state.may_emit_ready = false;
            },
            None => {},
        }
        assert(self@ =~= ready_noted(old(self)@, *namespace, false));
        due
    }
}

/// The states after a document was opened for sync. One that is synced already is left as it is.
pub open spec fn namespace_opened(states: States, namespace: NamespaceId) -> States {
    if states.contains_key(namespace) {
        states
    } else {
        states.insert(
            namespace,
            NamespaceModel { peers: Map::empty(), may_emit_ready: false },
        )
    }
}

} // verus!

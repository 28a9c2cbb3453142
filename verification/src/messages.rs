//! What the engine is told, and what it tells others.

use n0_future::time::SystemTime;
use vstd::prelude::*;

use crate::ids::{short_hex, ContentHash, Id, NamespaceId, PublicKey};
use crate::state::{AbortReason, Origin};

verus! {

/// An entry of a document, signed by its author.
#[derive(Debug, Clone, PartialEq, Eq)]
pub struct SignedEntry {
    /// The hash of the entry's content.
    pub content_hash: ContentHash,
    /// The entry as it goes over the wire.
    pub encoded: Vec<u8>,
}

/// An operation that is broadcast to the other peers of a document.
#[derive(Debug, Clone, PartialEq, Eq)]
pub enum Op {
    /// A new entry was inserted into the document.
    Put(SignedEntry),
    /// A peer now has content available for a hash.
    ContentReady(ContentHash),
    /// We synced with another peer, here's the news.
    SyncReport(SyncReport),
}

/// Report of a successful sync with the new heads.
#[derive(Debug, Clone, PartialEq, Eq)]
pub struct SyncReport {
    /// The document that was synced.
    pub namespace: NamespaceId,
    /// The encoded heads of the authors.
    pub heads: Vec<u8>,
}

/// A peer, and where it can be reached.
#[derive(Debug, PartialEq, Eq)]
pub struct EndpointAddr {
    /// The peer.
    pub id: PublicKey,
    /// Its addresses.
    pub addrs: Vec<iroh::TransportAddr>,
}

impl EndpointAddr {
    /// A peer of which no address is known.
    pub fn new(id: PublicKey) -> (r: EndpointAddr)
        ensures
            r.id == id,
            r.addrs@ == Seq::<iroh::TransportAddr>::empty(),
    {
        EndpointAddr { id, addrs: Vec::new() }
    }

    /// Whether no address is known.
    pub fn is_empty(&self) -> (r: bool)
        ensures
            r == (self.addrs@.len() == 0),
    {
        self.addrs.len() == 0
    }
}

/// Messages to the engine.
#[derive(Debug)]
pub enum ToLiveActor {
    /// Sync a document, to begin with with these peers.
    StartSync { namespace: NamespaceId, peers: Vec<EndpointAddr> },
    /// Stop syncing a document.
    Leave { namespace: NamespaceId, kill_subscribers: bool },
    /// Stop.
    Shutdown,
    /// Send the events of a document to a subscriber.
    Subscribe { namespace: NamespaceId, sender: async_channel::Sender<Event> },
    /// A peer has connected.
    HandleConnection,
    /// A peer that has connected asks to sync a document.
    AcceptSyncRequest { namespace: NamespaceId, peer: PublicKey },
    /// A peer reports the outcome of a sync.
    IncomingSyncReport { from: PublicKey, report: SyncReport },
    /// A peer has content available.
    NeighborContentReady { namespace: NamespaceId, node: PublicKey, hash: ContentHash },
    /// A peer joined the swarm of a document.
    NeighborUp { namespace: NamespaceId, peer: PublicKey },
    /// A peer left the swarm of a document.
    NeighborDown { namespace: NamespaceId, peer: PublicKey },
}

/// Events informing about the progress of the sync of a document.
#[derive(Debug, PartialEq, Eq)]
pub enum Event {
    /// The content of an entry was downloaded and is now available at the local node.
    ContentReady {
        /// The content hash of the newly available entry content.
        hash: ContentHash,
    },
    /// We have a new neighbor in the swarm.
    NeighborUp(PublicKey),
    /// We lost a neighbor in the swarm.
    NeighborDown(PublicKey),
    /// A set-reconciliation sync finished.
    SyncFinished(SyncEvent),
    /// All pending content is now ready.
    ///
    /// This event is only emitted after a sync completed and `Self::SyncFinished` was emitted at
    /// least once. It signals that all currently pending downloads have been completed.
    ///
    /// Receiving this event does not guarantee that all content in the document is available. If
    /// blobs failed to download, this event will still be emitted after all operations completed.
    PendingContentReady,
}

/// Event emitted when a sync operation completes.
#[derive(Debug, PartialEq, Eq)]
pub struct SyncEvent {
    /// Peer we synced with.
    pub peer: PublicKey,
    /// Why this synchronisation started.
    ///
    /// This says what triggered the exchange, and nothing more. Two exchanges with different
    /// origins can do the same work.
    pub origin: Origin,
    /// Timestamp when the sync finished.
    pub finished: SystemTime,
    /// Timestamp when the sync started.
    pub started: SystemTime,
    /// Result of the sync operation.
    pub result: Result<SyncDetails, String>,
}

impl Clone for Event {
    fn clone(&self) -> (r: Event)
        ensures
            r == *self,
    {
        match self {
            Event::ContentReady { hash } => Event::ContentReady { hash: *hash },
            Event::NeighborUp(peer) => Event::NeighborUp(*peer),
            Event::NeighborDown(peer) => Event::NeighborDown(*peer),
            Event::SyncFinished(sync) => Event::SyncFinished(sync.clone()),
            Event::PendingContentReady => Event::PendingContentReady,
        }
    }
}

impl Clone for SyncEvent {
    fn clone(&self) -> (r: SyncEvent)
        ensures
            r == *self,
    {
        let result = match &self.result {
            Ok(details) => Ok(*details),
            Err(message) => Err(message.clone()),
        };
        SyncEvent {
            peer: self.peer,
            origin: self.origin,
            finished: self.finished,
            started: self.started,
            result,
        }
    }
}

/// What a completed synchronisation reconciled: counts only.
#[derive(Debug, Clone, Copy, PartialEq, Eq)]
pub struct SyncDetails {
    /// Number of entries received.
    pub entries_received: usize,
    /// Number of entries sent.
    pub entries_sent: usize,
}

/// What a sync exchanged.
#[derive(Debug, PartialEq, Eq)]
pub struct SyncOutcome {
    /// Number of entries received.
    pub num_recv: usize,
    /// Number of entries sent.
    pub num_sent: usize,
    /// The heads of the authors whose entries were received, encoded to fit a broadcast. `None`
    /// if they could not be encoded.
    pub heads_received: Option<Vec<u8>>,
}

/// A sync that succeeded.
#[derive(Debug, PartialEq, Eq)]
pub struct SyncFinished {
    /// The document that was synced.
    pub namespace: NamespaceId,
    /// The peer it was synced with.
    pub peer: PublicKey,
    /// What was exchanged.
    pub outcome: SyncOutcome,
}

impl From<&SyncFinished> for SyncDetails {
    fn from(value: &SyncFinished) -> (r: SyncDetails) {
        SyncDetails {
            entries_received: value.outcome.num_recv,
            entries_sent: value.outcome.num_sent,
        }
    }
}

impl vstd::std_specs::convert::FromSpecImpl<&SyncFinished> for SyncDetails {
    open spec fn obeys_from_spec() -> bool {
        true
    }

    open spec fn from_spec(value: &SyncFinished) -> SyncDetails {
        SyncDetails {
            entries_received: value.outcome.num_recv,
            entries_sent: value.outcome.num_sent,
        }
    }
}

/// A sync that was started from this side and failed.
#[derive(Debug, PartialEq, Eq)]
pub enum ConnectError {
    /// The peer turned the request down.
    RemoteAbort { reason: AbortReason, message: String },
    /// The sync failed otherwise.
    Failed { message: String },
}

impl ConnectError {
    /// What went wrong, in words.
    pub open spec fn text(self) -> String {
        match self {
            ConnectError::RemoteAbort { message, .. } => message,
            ConnectError::Failed { message } => message,
        }
    }

    /// What went wrong, in words.
    pub fn into_message(self) -> (r: String)
        ensures
            r == self.text(),
    {
        match self {
            ConnectError::RemoteAbort { message, .. } => message,
            ConnectError::Failed { message } => message,
        }
    }
}

/// A sync that a peer started and that failed.
#[derive(Debug, PartialEq, Eq)]
pub enum AcceptError {
    /// This side turned the request down.
    Abort { peer: PublicKey, namespace: NamespaceId, reason: AbortReason, message: String },
    /// The sync failed otherwise. The peer and the document are known once it has named them.
    Failed { peer: Option<PublicKey>, namespace: Option<NamespaceId>, message: String },
}

impl AcceptError {
    /// The peer, as far as it is known.
    pub open spec fn known_peer(self) -> Option<PublicKey> {
        match self {
            AcceptError::Abort { peer, .. } => Some(peer),
            AcceptError::Failed { peer, .. } => peer,
        }
    }

    /// The document, as far as it is known.
    pub open spec fn known_namespace(self) -> Option<NamespaceId> {
        match self {
            AcceptError::Abort { namespace, .. } => Some(namespace),
            AcceptError::Failed { namespace, .. } => namespace,
        }
    }

    /// What went wrong, in words.
    pub open spec fn text(self) -> String {
        match self {
            AcceptError::Abort { message, .. } => message,
            AcceptError::Failed { message, .. } => message,
        }
    }

    /// This side turned the request down because another sync was running.
    pub open spec fn is_already_syncing(self) -> bool {
        self matches AcceptError::Abort { reason: AbortReason::AlreadySyncing, .. }
    }

    /// The peer, as far as it is known.
    pub fn peer(&self) -> (r: Option<PublicKey>)
        ensures
            r == self.known_peer(),
    {
        match self {
            AcceptError::Abort { peer, .. } => Some(*peer),
            AcceptError::Failed { peer, .. } => *peer,
        }
    }

    /// The document, as far as it is known.
    pub fn namespace(&self) -> (r: Option<NamespaceId>)
        ensures
            r == self.known_namespace(),
    {
        match self {
            AcceptError::Abort { namespace, .. } => Some(*namespace),
            AcceptError::Failed { namespace, .. } => *namespace,
        }
    }

    /// What went wrong, in words.
    pub fn into_message(self) -> (r: String)
        ensures
            r == self.text(),
    {
        match self {
            AcceptError::Abort { message, .. } => message,
            AcceptError::Failed { message, .. } => message,
        }
    }
}

/// The peer of a sync that a peer started, for logs.
pub fn fmt_accept_peer(res: &Result<SyncFinished, AcceptError>) -> (r: String)
    ensures
        r@ == match res {
            Ok(finished) => short_hex(finished.peer.bytes()),
            Err(err) => match err.known_peer() {
                Some(peer) => short_hex(peer.bytes()),
                None => "unknown"@,
            },
        },
{
    match res {
        Ok(finished) => finished.peer.fmt_short(),
        Err(err) => match err.peer() {
            Some(peer) => peer.fmt_short(),
            None => "unknown".to_owned(),
        },
    }
}

/// The document of a sync that a peer started, for logs.
pub fn fmt_accept_namespace(res: &Result<SyncFinished, AcceptError>) -> (r: String)
    ensures
        r@ == match res {
            Ok(finished) => short_hex(finished.namespace.bytes()),
            Err(err) => match err.known_namespace() {
                Some(namespace) => short_hex(namespace.bytes()),
                None => "unknown"@,
            },
        },
{
    match res {
        Ok(finished) => finished.namespace.fmt_short(),
        Err(err) => match err.namespace() {
            Some(namespace) => namespace.fmt_short(),
            None => "unknown".to_owned(),
        },
    }
}

/// How much of some content a peer has.
#[derive(Debug, Clone, Copy, PartialEq, Eq)]
pub enum ContentStatus {
    /// All of it.
    Complete,
    /// Some of it.
    Incomplete,
    /// None of it.
    Missing,
}

/// A change of a document.
#[derive(Debug, PartialEq, Eq)]
pub enum ReplicaEvent {
    /// An entry was inserted on this side.
    LocalInsert { namespace: NamespaceId, entry: SignedEntry },
    /// An entry was received from a peer.
    RemoteInsert {
        namespace: NamespaceId,
        entry: SignedEntry,
        /// The bytes of the peer's key.
        from: [u8; 32],
        /// Whether the content is wanted here.
        should_download: bool,
        /// How much of the content the peer has.
        remote_content_status: ContentStatus,
    },
}

/// How much of some content is stored here.
#[derive(Debug, Clone, Copy, PartialEq, Eq)]
pub enum BlobStatus {
    /// None of it.
    NotFound,
    /// Some of it.
    Partial { size: Option<u64> },
    /// All of it.
    Complete { size: u64 },
}

} // verus!

//! What a call leaves behind and gives back, item by item.

use async_channel::Sender;
use n0_future::time::SystemTime;
use vstd::prelude::*;

use crate::hashes::{MissingHashes, ProviderNodes, QueuedHashes, RemovedQueuedHash};
use crate::ids::{short_hex, ContentHash, Id, InvalidPublicKey, NamespaceId, PublicKey};
use crate::laws::effects::{
    a_free_peer_is_dialed, a_request_is_answered_by_the_sync_with_that_peer, count_before,
    differ_in_one_sync, is_free, keeps, keys_of, lemma_filter_keeps, lemma_joined_with_stored,
    request_is_answered, same_but_for_states, stored_due, stored_resync, stored_sync,
    sync_asked_for,
};
use crate::laws::tables::{
    a_hash_that_is_taken_out_names_who_waited, only_the_senders_of_one_document_are_settled,
    only_the_sync_that_runs_can_end, senders_that_were_reached_stay,
};
use crate::live::{
    accept_reply, batch_statuses, join_peers, status_hashes_one_by_one, with_stored_peers, Input,
    JoinPlan, LiveActor, StatusQuery, Step, StoredPeers,
};
use crate::messages::{
    fmt_accept_namespace, fmt_accept_peer, AcceptError, BlobStatus, EndpointAddr, Event,
    SyncFinished,
};
use crate::model::{input_taken, LiveModel};
use crate::outside::is_public_key;
use crate::sorted::{comes_before, first_differs};
use crate::state::{AbortReason, AcceptOutcome, NamespaceStates, Origin, SyncReason, SyncState};
use crate::subscribers::{Subscribers, SubscribersMap};

verus! {

/// A new engine is that of the given peer, and knows of nothing.
pub proof fn a_new_engine_knows_of_nothing(me: PublicKey, actor: LiveActor)
    requires
        call_ensures(LiveActor::new, (me,), actor),
    ensures
        actor.wf(),
        actor@.me == me,
        actor@.pending.len() == 0,
        forall|namespace: NamespaceId| !#[trigger] actor@.states.contains_key(namespace),
        forall|namespace: NamespaceId| !#[trigger] actor@.subscribers.contains_key(namespace),
        forall|pair: (ContentHash, NamespaceId)| !#[trigger] actor@.missing.contains(pair),
        forall|pair: (ContentHash, NamespaceId)| !#[trigger] actor@.queued.contains(pair),
        forall|pair: (ContentHash, PublicKey)| !#[trigger] actor@.providers.contains(pair),
{
}

/// An input that is handed to the engine is taken, at the given time.
pub proof fn a_call_takes_the_input(
    actor: &mut LiveActor,
    input: Input,
    now: SystemTime,
    step: Step,
)
    requires
        call_ensures(LiveActor::on_input_at, (actor, input, now), step),
    ensures
        final(actor).wf(),
        input_taken(old(actor)@, input, now, final(actor)@, step),
{
}

/// An input that is handed to the engine without a time is taken at some time.
pub proof fn a_call_takes_the_input_at_some_time(actor: &mut LiveActor, input: Input, step: Step)
    requires
        call_ensures(LiveActor::on_input, (actor, input), step),
    ensures
        final(actor).wf(),
        exists|now: SystemTime| #[trigger]
            input_taken(old(actor)@, input, now, final(actor)@, step),
{
}

/// A request is answered by how the document stands with the peer that asks, and what is allowed is
/// noted as running.
pub proof fn a_call_answers_a_request(
    actor: &mut LiveActor,
    namespace: NamespaceId,
    peer: PublicKey,
    now: SystemTime,
    answer: AcceptOutcome,
)
    requires
        call_ensures(LiveActor::accept_sync_request, (actor, namespace, peer, now), answer),
    ensures
        same_but_for_states(old(actor)@, final(actor)@),
        request_is_answered(
            old(actor)@.states,
            final(actor)@.states,
            old(actor)@.me,
            namespace,
            peer,
            now,
            answer,
        ),
{
    a_request_is_answered_by_the_sync_with_that_peer(
        old(actor)@.states,
        old(actor)@.me,
        namespace,
        peer,
        now,
    );
}

/// The senders of a document are those that have subscribed to it, if any have.
pub proof fn the_senders_are_the_subscribers(
    actor: &LiveActor,
    namespace: &NamespaceId,
    senders: Option<&Vec<Sender<Event>>>,
)
    requires
        call_ensures(LiveActor::senders, (actor, namespace), senders),
    ensures
        senders is Some <==> actor@.subscribers.contains_key(*namespace),
        senders is Some ==> senders->0@ == actor@.subscribers[*namespace],
{
}

/// After an event was sent, the document has just the senders that it was delivered to, each in its
/// place, and is forgotten if there are none. Nothing else changes.
pub proof fn a_sent_event_settles_the_senders(
    actor: &mut LiveActor,
    namespace: &NamespaceId,
    delivered: &Vec<bool>,
    had_any: bool,
    other: NamespaceId,
)
    requires
        old(actor)@.subscribers.contains_key(*namespace) ==> delivered@.len() == old(
            actor,
        )@.subscribers[*namespace].len(),
        !old(actor)@.subscribers.contains_key(*namespace) ==> delivered@.len() == 0,
        call_ensures(LiveActor::on_emitted, (actor, namespace, delivered), had_any),
    ensures
        had_any == old(actor)@.subscribers.contains_key(*namespace),
        final(actor)@ == (LiveModel { subscribers: final(actor)@.subscribers, ..old(actor)@ }),
        other != *namespace ==> {
            &&& final(actor)@.subscribers.contains_key(other) <==> old(
                actor,
            )@.subscribers.contains_key(other)
            &&& final(actor)@.subscribers.contains_key(other) ==> final(actor)@.subscribers[other]
                == old(actor)@.subscribers[other]
        },
        final(actor)@.subscribers.contains_key(*namespace) <==> exists|i: int|
            0 <= i < delivered@.len() && #[trigger] delivered@[i],
        final(actor)@.subscribers.contains_key(*namespace) ==> {
            let reached = |ok: bool| ok;
            let was = old(actor)@.subscribers[*namespace];
            let kept = final(actor)@.subscribers[*namespace];
            &&& kept.len() == count_before(delivered@, reached, delivered@.len() as int)
            &&& forall|i: int|
                0 <= i < delivered@.len() && #[trigger] delivered@[i] ==> kept[count_before(
                    delivered@,
                    reached,
                    i,
                ) as int] == was[i]
        },
{
    only_the_senders_of_one_document_are_settled(
        old(actor)@.subscribers,
        *namespace,
        delivered@,
        other,
    );
    if old(actor)@.subscribers.contains_key(*namespace) {
        senders_that_were_reached_stay(old(actor)@.subscribers[*namespace], delivered@);
    }
}

/// The peers that are found for a hash are those that the engine knows to have it, each once.
pub proof fn peers_are_found_by_hash(
    actor: &LiveActor,
    hash: &ContentHash,
    found: Vec<PublicKey>,
    peer: PublicKey,
)
    requires
        call_ensures(LiveActor::find_providers, (actor, hash), found),
    ensures
        found@.no_duplicates(),
        found@.contains(peer) <==> actor@.providers.contains((*hash, peer)),
{
    assert(found@.to_set().contains(peer) <==> found@.contains(peer));
}

/// When the engine stops, it forgets all subscribers and nothing else.
pub proof fn stopping_forgets_the_subscribers(actor: &mut LiveActor)
    requires
        call_ensures(LiveActor::shutdown, (actor,), ()),
    ensures
        final(actor)@ == (LiveModel { subscribers: final(actor)@.subscribers, ..old(actor)@ }),
        forall|namespace: NamespaceId| !#[trigger] final(actor)@.subscribers.contains_key(
            namespace,
        ),
{
}

/// A question names the hash of each of its groups, in order.
pub proof fn a_question_names_its_hashes(query: &StatusQuery, hashes: Vec<ContentHash>)
    requires
        call_ensures(StatusQuery::hashes, (query,), hashes),
    ensures
        hashes@.len() == query.groups().len(),
        forall|i: int|
            0 <= i < hashes@.len() ==> #[trigger] hashes@[i] == query.groups()[i].hash,
{
}

/// The given peers stay in front, as they are. Behind them come the stored ones whose bytes are a
/// key, in order, with no address.
pub proof fn stored_peers_come_behind_the_given_ones(
    peers: Vec<EndpointAddr>,
    stored: StoredPeers,
    all: Vec<EndpointAddr>,
)
    requires
        call_ensures(with_stored_peers, (peers, stored), all),
    ensures
        ({
            let keys = keys_of(stored);
            let is_key = |key: [u8; 32]| is_public_key(key@);
            let given = peers@.len() as int;
            &&& all@.len() == given + count_before(keys, is_key, keys.len() as int)
            &&& forall|i: int| 0 <= i < given ==> #[trigger] all@[i] == peers@[i]
            &&& forall|i: int|
                given <= i < all@.len() ==> (#[trigger] all@[i]).addrs@.len() == 0
            &&& forall|i: int|
                0 <= i < keys.len() && is_public_key((#[trigger] keys[i])@)
                    ==> all@[given + count_before(keys, is_key, i)].id.bytes() == keys[i]@
        }),
{
    lemma_joined_with_stored(peers@, stored, all@);
}

/// Each of the peers is joined with, in order, and those that have addresses are noted, in order.
pub proof fn a_plan_joins_with_every_peer(peers: Vec<EndpointAddr>, plan: JoinPlan)
    requires
        call_ensures(join_peers, (peers,), plan),
    ensures
        plan.peer_ids@.len() == peers@.len(),
        forall|i: int| 0 <= i < peers@.len() ==> #[trigger] plan.peer_ids@[i] == peers@[i].id,
        keeps(peers@, |peer: EndpointAddr| peer.addrs@.len() > 0, plan.addresses@),
{
    lemma_filter_keeps(peers@, |peer: EndpointAddr| peer.addrs@.len() > 0);
}

/// A batch of statuses is used if and only if it has one for each hash, and as it is.
pub proof fn a_full_batch_is_used(
    requested: usize,
    reply: Option<Vec<BlobStatus>>,
    used: Option<Vec<BlobStatus>>,
)
    requires
        call_ensures(batch_statuses, (requested, reply), used),
    ensures
        used is Some <==> reply is Some && reply->0@.len() == requested,
        used is Some ==> used == reply,
{
}

/// Each status is used as it is, and counts as not found if it could not be told.
pub proof fn single_statuses_are_used(replies: Vec<Option<BlobStatus>>, used: Vec<BlobStatus>)
    requires
        call_ensures(status_hashes_one_by_one, (replies,), used),
    ensures
        used@.len() == replies@.len(),
        forall|i: int|
            0 <= i < replies@.len() ==> {
                &&& (#[trigger] replies@[i]) is Some ==> used@[i] == replies@[i]->0
                &&& replies@[i] is None ==> used@[i] is NotFound
            },
{
}

/// An answer that was given is given on, and a request that got none is turned down.
pub proof fn a_given_answer_is_given_on(reply: Option<AcceptOutcome>, answer: AcceptOutcome)
    requires
        call_ensures(accept_reply, (reply,), answer),
    ensures
        reply is Some ==> answer == reply->0,
        reply is None ==> answer == AcceptOutcome::Reject(AbortReason::InternalServerError),
{
}

/// The peer of an accepted sync is shown in short form wherever it is known, and as unknown where it
/// is not.
pub proof fn a_known_peer_is_shown(res: &Result<SyncFinished, AcceptError>, text: String)
    requires
        call_ensures(fmt_accept_peer, (res,), text),
    ensures
        match *res {
            Ok(finished) => text@ == short_hex(finished.peer.bytes()),
            Err(AcceptError::Abort { peer, .. }) => text@ == short_hex(peer.bytes()),
            Err(AcceptError::Failed { peer: Some(peer), .. }) => text@ == short_hex(peer.bytes()),
            Err(AcceptError::Failed { peer: None, .. }) => text@ == "unknown"@,
        },
{
}

/// The document of an accepted sync is shown in short form wherever it is known, and as unknown
/// where it is not.
pub proof fn a_known_document_is_shown(res: &Result<SyncFinished, AcceptError>, text: String)
    requires
        call_ensures(fmt_accept_namespace, (res,), text),
    ensures
        match *res {
            Ok(finished) => text@ == short_hex(finished.namespace.bytes()),
            Err(AcceptError::Abort { namespace, .. }) => text@ == short_hex(namespace.bytes()),
            Err(AcceptError::Failed { namespace: Some(namespace), .. }) => text@ == short_hex(
                namespace.bytes(),
            ),
            Err(AcceptError::Failed { namespace: None, .. }) => text@ == "unknown"@,
        },
{
}

/// Bytes are a key exactly if they are one, and a key is made of its bytes.
pub proof fn a_key_is_its_bytes(bytes: &[u8; 32], key: Result<PublicKey, InvalidPublicKey>)
    requires
        call_ensures(PublicKey::from_bytes, (bytes,), key),
    ensures
        key is Ok <==> is_public_key(bytes@),
        key is Ok ==> key->Ok_0.bytes() == bytes@,
{
}

/// Byte strings are compared at the first byte in which they differ.
pub proof fn bytes_are_compared_at_the_first_difference(
    a: &[u8; 32],
    b: &[u8; 32],
    comes_first: bool,
)
    requires
        call_ensures(comes_before, (a, b), comes_first),
    ensures
        comes_first <==> exists|i: int|
            {
                &&& 0 <= i < 32
                &&& (#[trigger] a@[i]) < b@[i]
                &&& forall|j: int| 0 <= j < i ==> #[trigger] a@[j] == b@[j]
            },
{
    if exists|i: int|
        {
            &&& 0 <= i < 32
            &&& (#[trigger] a@[i]) < b@[i]
            &&& forall|j: int| 0 <= j < i ==> #[trigger] a@[j] == b@[j]
        } {
        let i = choose|i: int|
            {
                &&& 0 <= i < 32
                &&& (#[trigger] a@[i]) < b@[i]
                &&& forall|j: int| 0 <= j < i ==> #[trigger] a@[j] == b@[j]
            };
        assert(first_differs(a@, b@, i));
    }
}

/// A document counts as synced if its state is kept.
pub proof fn a_call_tells_whether_a_document_is_synced(
    states: &NamespaceStates,
    namespace: &NamespaceId,
    synced: bool,
)
    requires
        call_ensures(NamespaceStates::is_syncing, (states, namespace), synced),
    ensures
        synced <==> states@.contains_key(*namespace),
{
}

/// Inserting a document makes it synced, and changes nothing else.
pub proof fn a_call_inserts_a_document(
    states: &mut NamespaceStates,
    namespace: NamespaceId,
    other: NamespaceId,
    peer: PublicKey,
)
    requires
        call_ensures(NamespaceStates::insert, (states, namespace), ()),
    ensures
        final(states)@.contains_key(other) <==> old(states)@.contains_key(other) || other
            == namespace,
        stored_due(final(states)@, other) == stored_due(old(states)@, other),
        stored_sync(final(states)@, other, peer) == stored_sync(old(states)@, other, peer),
        stored_resync(final(states)@, other, peer) == stored_resync(old(states)@, other, peer),
{
}

/// Removing a document makes it not synced, with all that was known of it, and changes nothing else.
pub proof fn a_call_removes_a_document(
    states: &mut NamespaceStates,
    namespace: &NamespaceId,
    was_there: bool,
    other: NamespaceId,
)
    requires
        call_ensures(NamespaceStates::remove, (states, namespace), was_there),
    ensures
        was_there <==> old(states)@.contains_key(*namespace),
        !final(states)@.contains_key(*namespace),
        other != *namespace ==> {
            &&& final(states)@.contains_key(other) <==> old(states)@.contains_key(other)
            &&& final(states)@.contains_key(other) ==> final(states)@[other] == old(states)@[other]
        },
{
}

/// A dial may run if and only if the peer is free, and what is noted of it follows from that.
pub proof fn a_call_asks_for_a_sync(
    states: &mut NamespaceStates,
    namespace: &NamespaceId,
    peer: PublicKey,
    reason: SyncReason,
    now: SystemTime,
    runs: bool,
)
    requires
        call_ensures(
            NamespaceStates::start_connect,
            (states, namespace, peer, reason, now),
            runs,
        ),
    ensures
        runs == is_free(old(states)@, *namespace, peer),
        sync_asked_for(old(states)@, final(states)@, *namespace, peer, reason, now),
{
    a_free_peer_is_dialed(old(states)@, *namespace, peer, reason, now);
}

/// A request is answered by how the document stands with the peer that asks, and what is allowed is
/// noted as running.
pub proof fn a_call_decides_on_a_request(
    states: &mut NamespaceStates,
    me: &PublicKey,
    namespace: &NamespaceId,
    peer: PublicKey,
    now: SystemTime,
    answer: AcceptOutcome,
)
    requires
        call_ensures(
            NamespaceStates::accept_request,
            (states, me, namespace, peer, now),
            answer,
        ),
    ensures
        request_is_answered(old(states)@, final(states)@, *me, *namespace, peer, now, answer),
{
    a_request_is_answered_by_the_sync_with_that_peer(old(states)@, *me, *namespace, peer, now);
}

/// The end of a sync is taken if and only if it is the one that runs.
pub proof fn a_call_ends_the_sync_that_runs(
    states: &mut NamespaceStates,
    namespace: &NamespaceId,
    peer: PublicKey,
    origin: &Origin,
    result: Option<(SystemTime, bool)>,
)
    requires
        call_ensures(NamespaceStates::finish, (states, namespace, peer, origin), result),
    ensures
        result is Some <==> (stored_sync(old(states)@, *namespace, peer) matches SyncState::Running {
            origin: running,
            ..
        } && running == *origin),
        result is None ==> final(states)@ == old(states)@,
        result is Some ==> {
            &&& stored_sync(old(states)@, *namespace, peer) == SyncState::Running {
                start: (result->0).0,
                origin: *origin,
            }
            &&& (result->0).1 == stored_resync(old(states)@, *namespace, peer)
            &&& stored_sync(final(states)@, *namespace, peer) is Idle
            &&& !stored_resync(final(states)@, *namespace, peer)
            &&& stored_due(final(states)@, *namespace) == stored_due(old(states)@, *namespace)
            &&& differ_in_one_sync(old(states)@, final(states)@, *namespace, peer)
        },
{
    only_the_sync_that_runs_can_end(old(states)@, *namespace, peer, *origin);
}

/// Whether the end of downloads is to be announced is noted for one document, if it is synced.
pub proof fn a_call_notes_the_announcement(
    states: &mut NamespaceStates,
    namespace: &NamespaceId,
    value: bool,
    other: NamespaceId,
    peer: PublicKey,
)
    requires
        call_ensures(NamespaceStates::set_may_emit_ready, (states, namespace, value), ()),
    ensures
        stored_due(final(states)@, other) == if other == *namespace {
            old(states)@.contains_key(*namespace) && value
        } else {
            stored_due(old(states)@, other)
        },
        final(states)@.contains_key(other) <==> old(states)@.contains_key(other),
        stored_sync(final(states)@, other, peer) == stored_sync(old(states)@, other, peer),
        stored_resync(final(states)@, other, peer) == stored_resync(old(states)@, other, peer),
{
}

/// What is to be announced is asked for once: it is told, and not due any longer.
pub proof fn a_call_takes_the_announcement(
    states: &mut NamespaceStates,
    namespace: &NamespaceId,
    due: Option<bool>,
    other: NamespaceId,
    peer: PublicKey,
)
    requires
        call_ensures(NamespaceStates::may_emit_ready, (states, namespace), due),
    ensures
        due is Some <==> old(states)@.contains_key(*namespace),
        due is Some ==> due->0 == stored_due(old(states)@, *namespace),
        stored_due(final(states)@, other) == (other != *namespace && stored_due(
            old(states)@,
            other,
        )),
        final(states)@.contains_key(other) <==> old(states)@.contains_key(other),
        stored_sync(final(states)@, other, peer) == stored_sync(old(states)@, other, peer),
        stored_resync(final(states)@, other, peer) == stored_resync(old(states)@, other, peer),
{
}

/// A gap is noted for one hash and one document.
pub proof fn a_call_notes_a_gap(
    missing: &mut MissingHashes,
    hash: ContentHash,
    namespace: NamespaceId,
    pair: (ContentHash, NamespaceId),
)
    requires
        call_ensures(MissingHashes::insert, (missing, hash, namespace), ()),
    ensures
        final(missing)@.contains(pair) <==> old(missing)@.contains(pair) || pair
            == (hash, namespace),
{
}

/// A gap is filled for one hash and one document, and it is told whether there was one.
pub proof fn a_call_fills_a_gap(
    missing: &mut MissingHashes,
    hash: ContentHash,
    namespace: &NamespaceId,
    was_there: bool,
    pair: (ContentHash, NamespaceId),
)
    requires
        call_ensures(MissingHashes::remove, (missing, hash, namespace), was_there),
    ensures
        was_there <==> old(missing)@.contains((hash, *namespace)),
        final(missing)@.contains(pair) <==> old(missing)@.contains(pair) && pair
            != (hash, *namespace),
{
}

/// The gaps of a document are told as they were noted, each once.
pub proof fn calls_tell_the_gaps(
    missing: &MissingHashes,
    hash: ContentHash,
    namespace: &NamespaceId,
    is_missing: bool,
    hashes: Vec<ContentHash>,
)
    requires
        call_ensures(MissingHashes::contains, (missing, hash, namespace), is_missing),
        call_ensures(MissingHashes::hashes_for_namespace, (missing, namespace), hashes),
    ensures
        is_missing <==> missing@.contains((hash, *namespace)),
        hashes@.no_duplicates(),
        hashes@.contains(hash) <==> is_missing,
{
    assert(hashes@.to_set().contains(hash) <==> hashes@.contains(hash));
}

/// A hash is queued for one document.
pub proof fn a_call_queues_a_hash(
    queued: &mut QueuedHashes,
    hash: ContentHash,
    namespace: NamespaceId,
    pair: (ContentHash, NamespaceId),
)
    requires
        call_ensures(QueuedHashes::insert, (queued, hash, namespace), ()),
    ensures
        final(queued)@.contains(pair) <==> old(queued)@.contains(pair) || pair
            == (hash, namespace),
{
}

/// A hash is taken out of the queue for all documents, and it is told who waited for it, and who of
/// them waited for nothing else.
pub proof fn a_call_takes_a_hash_out(
    queued: &mut QueuedHashes,
    hash: &ContentHash,
    removed: RemovedQueuedHash,
    other: ContentHash,
    namespace: NamespaceId,
)
    requires
        call_ensures(QueuedHashes::remove_hash, (queued, hash), removed),
    ensures
        final(queued)@.contains((other, namespace)) <==> other != *hash && old(queued)@.contains(
            (other, namespace),
        ),
        removed.namespaces@.no_duplicates(),
        removed.completed_namespaces@.no_duplicates(),
        removed.namespaces@.contains(namespace) <==> old(queued)@.contains((*hash, namespace)),
        removed.completed_namespaces@.contains(namespace) <==> {
            &&& old(queued)@.contains((*hash, namespace))
            &&& forall|some: ContentHash|
                some != *hash ==> !#[trigger] old(queued)@.contains((some, namespace))
        },
{
    a_hash_that_is_taken_out_names_who_waited(removed, old(queued)@, *hash, namespace);
}

/// It is told whether anybody waits for a hash, and whether a document waits for anything.
pub proof fn calls_tell_what_is_queued(
    queued: &QueuedHashes,
    hash: &ContentHash,
    namespace: &NamespaceId,
    waited_for: bool,
    waits: bool,
)
    requires
        call_ensures(QueuedHashes::contains_hash, (queued, hash), waited_for),
        call_ensures(QueuedHashes::contains_namespace, (queued, namespace), waits),
    ensures
        waited_for <==> exists|some: NamespaceId| #[trigger] queued@.contains((*hash, some)),
        waits <==> exists|some: ContentHash| #[trigger] queued@.contains((some, *namespace)),
{
}

/// A peer is noted as having one hash.
pub proof fn a_call_notes_a_provider(
    providers: &mut ProviderNodes,
    hash: ContentHash,
    node: PublicKey,
    pair: (ContentHash, PublicKey),
)
    requires
        call_ensures(ProviderNodes::insert, (providers, hash, node), ()),
    ensures
        final(providers)@.contains(pair) <==> old(providers)@.contains(pair) || pair
            == (hash, node),
{
}

/// The peers that are found for a hash are those that were noted as having it, each once.
pub proof fn a_call_tells_the_providers(
    providers: &ProviderNodes,
    hash: &ContentHash,
    found: Vec<PublicKey>,
    peer: PublicKey,
)
    requires
        call_ensures(ProviderNodes::find_providers, (providers, hash), found),
    ensures
        found@.no_duplicates(),
        found@.contains(peer) <==> providers@.contains((*hash, peer)),
{
    assert(found@.to_set().contains(peer) <==> found@.contains(peer));
}

/// A subscriber is added behind the others.
pub proof fn a_call_adds_a_subscriber(subscribers: &mut Subscribers, sender: Sender<Event>)
    requires
        call_ensures(Subscribers::subscribe, (subscribers, sender), ()),
    ensures
        final(subscribers)@ == old(subscribers)@ + seq![sender],
{
    assert(old(subscribers)@.push(sender) =~= old(subscribers)@ + seq![sender]);
}

/// Of the subscribers those stay that were reached, each in its place, and it is told whether there
/// are any.
pub proof fn a_call_drops_who_was_not_reached(
    subscribers: &mut Subscribers,
    delivered: &Vec<bool>,
    any_left: bool,
)
    requires
        delivered@.len() == old(subscribers)@.len(),
        call_ensures(Subscribers::settle, (subscribers, delivered), any_left),
    ensures
        ({
            let reached = |ok: bool| ok;
            let kept = final(subscribers)@;
            &&& any_left <==> kept.len() > 0
            &&& kept.len() == count_before(delivered@, reached, delivered@.len() as int)
            &&& forall|i: int|
                0 <= i < delivered@.len() && #[trigger] delivered@[i] ==> kept[count_before(
                    delivered@,
                    reached,
                    i,
                ) as int] == old(subscribers)@[i]
        }),
{
    senders_that_were_reached_stay(old(subscribers)@, delivered@);
}

/// A subscriber is added behind the others of its document. Other documents keep theirs.
pub proof fn a_call_adds_a_subscriber_of_a_document(
    map: &mut SubscribersMap,
    namespace: NamespaceId,
    sender: Sender<Event>,
    other: NamespaceId,
)
    requires
        call_ensures(SubscribersMap::subscribe, (map, namespace, sender), ()),
    ensures
        final(map)@.contains_key(namespace),
        old(map)@.contains_key(namespace) ==> final(map)@[namespace] == old(map)@[namespace]
            + seq![sender],
        !old(map)@.contains_key(namespace) ==> final(map)@[namespace] == seq![sender],
        other != namespace ==> {
            &&& final(map)@.contains_key(other) <==> old(map)@.contains_key(other)
            &&& final(map)@.contains_key(other) ==> final(map)@[other] == old(map)@[other]
        },
{
}

/// The subscribers of one document are forgotten, and no others.
pub proof fn a_call_forgets_the_subscribers_of_a_document(
    map: &mut SubscribersMap,
    namespace: &NamespaceId,
    other: NamespaceId,
)
    requires
        call_ensures(SubscribersMap::remove, (map, namespace), ()),
    ensures
        !final(map)@.contains_key(*namespace),
        other != *namespace ==> {
            &&& final(map)@.contains_key(other) <==> old(map)@.contains_key(other)
            &&& final(map)@.contains_key(other) ==> final(map)@[other] == old(map)@[other]
        },
{
}

} // verus!

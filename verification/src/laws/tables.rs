//! What the tables hold, item by item.

use async_channel::Sender;
use vstd::prelude::*;

use crate::hashes::{
    has_hash, has_namespace, hashes_of, is_last_hash, lemma_filter_distinct, namespaces_of,
    providers_of, without_hash, Pairs, RemovedQueuedHash,
};
use crate::ids::{hex_digit, short_hex, ContentHash, NamespaceId, PublicKey};
use crate::laws::effects::{
    count_before, differ_in_one_sync, stored_due, stored_resync, stored_sync,
};
use crate::messages::{AcceptError, BlobStatus, ConnectError, Event};
use crate::model::{enumerates, status_or_not_found, usable_batch};
use crate::state::{
    ended, namespace_opened, ready_due, ready_noted, sync_ended, AbortReason, Origin, States,
    SyncState,
};
use crate::subscribers::{delivered_to, lists_settled, senders_of, SubscriberLists};

verus! {

/// The end of a sync is taken if and only if the sync that is noted as running was started by that
/// side, for that reason. The peer is idle then, nothing is asked for again, and the time of its
/// start and whether another sync was asked for are given back. Otherwise nothing changes.
pub proof fn only_the_sync_that_runs_can_end(
    states: States,
    namespace: NamespaceId,
    peer: PublicKey,
    origin: Origin,
)
    ensures
        ({
            let after = sync_ended(states, namespace, peer, origin);
            match stored_sync(states, namespace, peer) {
                SyncState::Running { start, origin: running } => if running == origin {
                    &&& ended(states, namespace, peer, origin) == Some(
                        (start, stored_resync(states, namespace, peer)),
                    )
                    &&& differ_in_one_sync(states, after, namespace, peer)
                    &&& stored_due(after, namespace) == stored_due(states, namespace)
                    &&& stored_sync(after, namespace, peer) == SyncState::Idle
                    &&& !stored_resync(after, namespace, peer)
                } else {
                    ended(states, namespace, peer, origin) is None && after == states
                },
                SyncState::Idle => {
                    ended(states, namespace, peer, origin) is None && after == states
                },
            }
        }),
{
}

/// Noting that the end of downloads is to be announced, or that it is not, changes just that, for a
/// document that is synced.
pub proof fn an_announcement_is_noted_for_one_document(
    states: States,
    namespace: NamespaceId,
    value: bool,
    other: NamespaceId,
    peer: PublicKey,
)
    ensures
        ({
            let after = ready_noted(states, namespace, value);
            &&& after.contains_key(other) <==> states.contains_key(other)
            &&& ready_due(after, other) == stored_due(after, other)
            &&& stored_due(after, other) == if other == namespace {
                states.contains_key(namespace) && value
            } else {
                stored_due(states, other)
            }
            &&& stored_sync(after, other, peer) == stored_sync(states, other, peer)
            &&& stored_resync(after, other, peer) == stored_resync(states, other, peer)
        }),
{
}

/// Opening a document makes it synced and changes nothing else.
pub proof fn opening_only_adds_the_document(
    states: States,
    namespace: NamespaceId,
    other: NamespaceId,
    peer: PublicKey,
)
    ensures
        ({
            let after = namespace_opened(states, namespace);
            &&& after.contains_key(other) <==> states.contains_key(other) || other == namespace
            &&& stored_due(after, other) == stored_due(states, other)
            &&& stored_sync(after, other, peer) == stored_sync(states, other, peer)
            &&& stored_resync(after, other, peer) == stored_resync(states, other, peer)
        }),
{
}

/// Of the senders of an event exactly those stay that it was delivered to, each in its place.
pub proof fn senders_that_were_reached_stay(
    senders: Seq<Sender<Event>>,
    delivered: Seq<bool>,
)
    requires
        delivered.len() == senders.len(),
    ensures
        ({
            let reached = |ok: bool| ok;
            let kept = delivered_to(senders, delivered);
            &&& kept.len() == count_before(delivered, reached, delivered.len() as int)
            &&& forall|i: int|
                0 <= i < senders.len() && #[trigger] delivered[i] ==> kept[count_before(
                    delivered,
                    reached,
                    i,
                ) as int] == senders[i]
        }),
{
    lemma_reached(senders, delivered);
}

proof fn lemma_reached(senders: Seq<Sender<Event>>, delivered: Seq<bool>)
    requires
        senders.len() <= delivered.len(),
    ensures
        ({
            let reached = |ok: bool| ok;
            let kept = delivered_to(senders, delivered);
            &&& kept.len() == count_before(delivered, reached, senders.len() as int)
            &&& forall|i: int|
                0 <= i < senders.len() && #[trigger] delivered[i] ==> {
                    &&& count_before(delivered, reached, i) < kept.len()
                    &&& kept[count_before(delivered, reached, i) as int] == senders[i]
                }
        }),
    decreases senders.len(),
{
    if senders.len() > 0 {
        lemma_reached(senders.drop_last(), delivered);
        let front = senders.drop_last();
        assert(forall|i: int| 0 <= i < front.len() ==> front[i] == senders[i]);
    }
}

/// After an event of a document was sent, the document has the senders that it was delivered to, and
/// none but those; it is forgotten if there are none. Other documents keep theirs.
pub proof fn only_the_senders_of_one_document_are_settled(
    lists: SubscriberLists,
    namespace: NamespaceId,
    delivered: Seq<bool>,
    other: NamespaceId,
)
    requires
        lists.contains_key(namespace) ==> delivered.len() == lists[namespace].len(),
        !lists.contains_key(namespace) ==> delivered.len() == 0,
    ensures
        ({
            let after = lists_settled(lists, namespace, delivered);
            &&& other != namespace ==> {
                &&& after.contains_key(other) <==> lists.contains_key(other)
                &&& after.contains_key(other) ==> after[other] == lists[other]
            }
            &&& after.contains_key(namespace) <==> exists|i: int|
                0 <= i < delivered.len() && #[trigger] delivered[i]
            &&& after.contains_key(namespace) ==> lists.contains_key(namespace)
                && after[namespace] == delivered_to(lists[namespace], delivered)
            &&& senders_of(lists, other).len() > 0 ==> lists.contains_key(other) && senders_of(
                lists,
                other,
            ) == lists[other]
            &&& lists.contains_key(other) ==> senders_of(lists, other) == lists[other]
        }),
{
    let senders = senders_of(lists, namespace);
    let reached = |ok: bool| ok;
    lemma_reached(senders, delivered);
    if exists|i: int| 0 <= i < delivered.len() && #[trigger] delivered[i] {
        let i = choose|i: int| 0 <= i < delivered.len() && #[trigger] delivered[i];
        assert(delivered[i]);
    } else {
        lemma_none(delivered, delivered.len() as int);
    }
}

proof fn lemma_none(delivered: Seq<bool>, i: int)
    requires
        0 <= i <= delivered.len(),
        forall|j: int| 0 <= j < delivered.len() ==> !#[trigger] delivered[j],
    ensures
        count_before(delivered, |ok: bool| ok, i) == 0,
    decreases i,
{
    if i > 0 {
        lemma_none(delivered, i - 1);
        assert(!delivered[i - 1]);
    }
}

/// What the tables of content say of one hash and one document is what the pairs say.
pub proof fn tables_of_content_hold_pairs(
    pairs: Pairs,
    hash: ContentHash,
    namespace: NamespaceId,
    other: ContentHash,
)
    ensures
        namespaces_of(pairs, hash).contains(namespace) <==> pairs.contains((hash, namespace)),
        hashes_of(pairs, namespace).contains(hash) <==> pairs.contains((hash, namespace)),
        pairs.contains((hash, namespace)) ==> has_hash(pairs, hash) && has_namespace(
            pairs,
            namespace,
        ),
        !has_hash(pairs, hash) ==> !pairs.contains((hash, namespace)),
        has_hash(pairs, hash) ==> exists|some: NamespaceId| #[trigger]
            pairs.contains((hash, some)),
        has_namespace(pairs, namespace) ==> exists|some: ContentHash| #[trigger]
            pairs.contains((some, namespace)),
        without_hash(pairs, hash).contains((other, namespace)) <==> other != hash
            && pairs.contains((other, namespace)),
{
    if pairs.contains((hash, namespace)) {
        assert(has_hash(pairs, hash) && has_namespace(pairs, namespace));
    }
}

/// What is given back when a hash is taken out of the queue: the documents that waited for it, each
/// once, and among them, in the same order, those that waited for nothing else.
pub proof fn a_hash_that_is_taken_out_names_who_waited(
    removed: RemovedQueuedHash,
    pairs: Pairs,
    hash: ContentHash,
    namespace: NamespaceId,
)
    requires
        removed.describes(pairs, hash),
    ensures
        removed.namespaces@.no_duplicates(),
        removed.completed_namespaces@.no_duplicates(),
        removed.namespaces@.contains(namespace) <==> pairs.contains((hash, namespace)),
        removed.completed_namespaces@.contains(namespace) <==> {
            &&& pairs.contains((hash, namespace))
            &&& forall|other: ContentHash|
                other != hash ==> !#[trigger] pairs.contains((other, namespace))
        },
{
    let is_last = |namespace: NamespaceId| is_last_hash(pairs, hash, namespace);
    lemma_filter_distinct(removed.namespaces@, is_last);
    assert(removed.namespaces@.to_set().contains(namespace) <==> namespaces_of(
        pairs,
        hash,
    ).contains(namespace));
}

/// The peers that are found for a hash are those that are known to have it, each once.
pub proof fn the_peers_found_are_those_known(
    providers: Set<(ContentHash, PublicKey)>,
    hash: ContentHash,
    found: Seq<PublicKey>,
    peer: PublicKey,
)
    requires
        enumerates(found, providers_of(providers, hash)),
    ensures
        found.no_duplicates(),
        found.contains(peer) <==> providers.contains((hash, peer)),
{
    assert(found.to_set().contains(peer) <==> providers_of(providers, hash).contains(peer));
}

/// The number that a lower case hexadecimal digit stands for.
pub open spec fn digit_value(digit: char) -> int {
    if '0' <= digit <= '9' {
        digit as int - '0' as int
    } else {
        digit as int - 'a' as int + 10
    }
}

/// The short form of an identifier is made of ten lower case hexadecimal digits, and each two of
/// them give back one of its first five bytes.
pub proof fn the_short_form_gives_back_five_bytes(bytes: Seq<u8>, i: int)
    requires
        0 <= i < 5,
    ensures
        short_hex(bytes).len() == 10,
        digit_value(short_hex(bytes)[2 * i]) * 16 + digit_value(short_hex(bytes)[2 * i + 1])
            == bytes[i],
        '0' <= short_hex(bytes)[2 * i] <= '9' || 'a' <= short_hex(bytes)[2 * i] <= 'f',
        '0' <= short_hex(bytes)[2 * i + 1] <= '9' || 'a' <= short_hex(bytes)[2 * i + 1] <= 'f',
        0 <= digit_value(short_hex(bytes)[2 * i + 1]) < 16,
{
    let high = bytes[i] as int / 16;
    let low = bytes[i] as int % 16;
    assert((2 * i) / 2 == i && (2 * i + 1) / 2 == i);
    assert((2 * i) % 2 == 0 && (2 * i + 1) % 2 == 1);
    assert(short_hex(bytes)[2 * i] == hex_digit(high));
    assert(short_hex(bytes)[2 * i + 1] == hex_digit(low));
    assert(high * 16 + low == bytes[i]);
}

/// A batch of statuses is used if and only if there is one, with one status for each hash, and it is
/// used as it is. A single status is used as it is, and one that cannot be told counts as not found.
pub proof fn statuses_are_used_as_they_are(
    requested: nat,
    reply: Option<Vec<BlobStatus>>,
    single: Option<BlobStatus>,
)
    ensures
        usable_batch(requested, reply) is Some <==> reply is Some && reply->0@.len() == requested,
        usable_batch(requested, reply) is Some ==> usable_batch(requested, reply) == reply,
        single is Some ==> Some(status_or_not_found(single)) == single,
        single is None ==> status_or_not_found(single) is NotFound,
{
}

/// What is known of a sync that failed is what the error says of it.
pub proof fn errors_say_what_is_known(
    accept: AcceptError,
    reason: AbortReason,
    message: String,
    peer: PublicKey,
    namespace: NamespaceId,
)
    ensures
        (ConnectError::RemoteAbort { reason, message }).text() == message,
        (ConnectError::Failed { message }).text() == message,
        accept == (AcceptError::Abort { peer, namespace, reason, message }) ==> {
            &&& accept.known_peer() == Some(peer)
            &&& accept.known_namespace() == Some(namespace)
            &&& accept.text() == message
            &&& accept.is_already_syncing() <==> reason == AbortReason::AlreadySyncing
        },
        accept matches AcceptError::Failed { peer: by, namespace: about, message: said } ==> {
            &&& accept.known_peer() == by
            &&& accept.known_namespace() == about
            &&& accept.text() == said
            &&& !accept.is_already_syncing()
        },
{
}

} // verus!

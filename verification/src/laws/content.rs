//! Content: what is wanted, what is being downloaded, and what is announced.

use n0_future::time::SystemTime;
use vstd::prelude::*;
use vstd::seq_lib::lemma_multiset_commutative;

use crate::hashes::{
    has_hash, has_namespace, hashes_of, is_last_hash, lemma_filter_distinct, namespaces_of,
    pairs_with, Pairs,
};
use crate::ids::{ContentHash, NamespaceId, PublicKey};
use crate::laws::actions::{
    lemma_completed_actions, lemma_contains_sum, lemma_finish_actions, lemma_is_due,
    lemma_settled, lemma_stored_actions,
};
use crate::laws::syncs::ends_sync;
use crate::live::{
    Action, AfterFlush, DownloadCandidate, DownloadEnd, HashGroup, Input, Next, StatusQuery, Step,
};
use crate::messages::{BlobStatus, Event, ReplicaEvent, SyncEvent, SyncFinished};
use crate::model::{
    all_ready_noted, announces, content_ready_actions, content_ready_for_all, download_end_taken,
    download_ended, eligible_namespaces, enumerates, flush_taken, group_settled, groups_settled,
    has_group, in_words, input_taken, is_eligible, is_grouping, is_redrive, namespaces_in,
    peers_joined, providers_in, ready_actions, redriven, report_actions, settled_count,
    status_or_not_found, stored_actions, sync_completed, sync_event, sync_finish_taken,
    usable_batch, LiveModel,
};
use crate::state::{
    ended, peer_state, ready_due, sync_ended, NamespaceModel, Origin, States, SyncState,
};

verus! {

/// Some peer is known to have the content.
pub open spec fn has_provider(model: LiveModel, hash: ContentHash) -> bool {
    exists|peer: PublicKey| #[trigger] model.providers.contains((hash, peer))
}

/// The document waits for the content, or misses it.
pub open spec fn is_wanted(model: LiveModel, hash: ContentHash, namespace: NamespaceId) -> bool {
    model.queued.contains((hash, namespace)) || model.missing.contains((hash, namespace))
}

/// The document waits for the content, and misses it as well.
pub open spec fn is_wanted_twice(
    model: LiveModel,
    hash: ContentHash,
    namespace: NamespaceId,
) -> bool {
    model.queued.contains((hash, namespace)) && model.missing.contains((hash, namespace))
}

/// The input is a change by which an entry of the document with this content was received.
pub open spec fn brings_entry(input: Input, hash: ContentHash, namespace: NamespaceId) -> bool {
    match input {
        Input::ReplicaEvent(Some(event)) => is_entry_of(event, hash, namespace),
        Input::BatchEvent { event: Some(event), .. } => is_entry_of(event, hash, namespace),
        _ => false,
    }
}

/// An entry of the document with this content was received.
pub open spec fn is_entry_of(
    event: ReplicaEvent,
    hash: ContentHash,
    namespace: NamespaceId,
) -> bool {
    event matches ReplicaEvent::RemoteInsert { namespace: about, entry, .. } && about == namespace
        && entry.content_hash == hash
}

/// The content is to be downloaded.
pub open spec fn starts_download(actions: Seq<Action>, hash: ContentHash) -> bool {
    exists|namespace: NamespaceId| #[trigger]
        actions.contains(Action::Download { namespace, hash })
}

/// Subscribers to the document are told that the content is available.
pub open spec fn tells_of_content(
    actions: Seq<Action>,
    namespace: NamespaceId,
    hash: ContentHash,
) -> bool {
    actions.contains(Action::Emit { namespace, event: Event::ContentReady { hash } })
}

/// The input is the end of a download of the content.
pub open spec fn ends_download(input: Input, hash: ContentHash) -> bool {
    input matches Input::Download(Some(end)) && end.hash == hash
}

/// Content that is stored here already is announced to every document that missed it and asked.
proof fn lemma_stored_tells(
    model: LiveModel,
    hash: ContentHash,
    candidates: Seq<DownloadCandidate>,
    namespace: NamespaceId,
)
    requires
        namespaces_in(candidates).contains(namespace),
        model.missing.contains((hash, namespace)),
    ensures
        tells_of_content(stored_actions(model, hash, candidates), namespace, hash),
    decreases candidates.len(),
{
    let front = candidates.drop_last();
    let last = candidates.len() - 1;
    let done = stored_actions(model, hash, front);
    let more = if announces(model.missing, hash, candidates, last) {
        content_ready_actions(model.states, candidates[last].namespace, hash)
    } else {
        Seq::empty()
    };
    let action = Action::Emit { namespace, event: Event::ContentReady { hash } };
    lemma_contains_sum(done, more, action);
    assert(candidates.take(last) =~= front);
    if namespaces_in(front).contains(namespace) {
        lemma_stored_tells(model, hash, front, namespace);
    } else {
        assert(candidates[last].namespace == namespace) by {
            let i = choose|i: int|
                0 <= i < candidates.len() && (#[trigger] candidates[i]).namespace == namespace;
            if i < last {
                assert(front[i].namespace == namespace);
            }
        }
        assert(more[0] == action);
    }
}

/// What considering the candidates of one hash does to the content of a document.
proof fn lemma_group(
    model: LiveModel,
    group: HashGroup,
    status: BlobStatus,
    hash: ContentHash,
    namespace: NamespaceId,
)
    ensures
        ({
            let (settled, actions) = group_settled(model, group.hash, group.candidates@, status);
            &&& settled.states == model.states
            &&& model.queued.subset_of(settled.queued)
            &&& model.providers.subset_of(settled.providers)
            &&& settled.missing.subset_of(model.missing)
            &&& has_hash(settled.queued, hash) ==> has_hash(model.queued, hash) || starts_download(
                actions,
                hash,
            )
            &&& starts_download(actions, hash) ==> {
                &&& !has_hash(model.queued, hash)
                &&& has_hash(settled.queued, hash)
                &&& has_provider(settled, hash)
            }
            &&& is_wanted(model, hash, namespace) ==> is_wanted(settled, hash, namespace)
                || tells_of_content(actions, namespace, hash)
            &&& is_wanted_twice(settled, hash, namespace) ==> is_wanted_twice(
                model,
                hash,
                namespace,
            )
        }),
{
    let (settled, actions) = group_settled(model, group.hash, group.candidates@, status);
    let candidates = group.candidates@;
    let eligible = eligible_namespaces(model.missing, group.hash, candidates);
    if status is Complete {
        if starts_download(actions, hash) {
            let started = choose|namespace: NamespaceId| #[trigger]
                actions.contains(Action::Download { namespace, hash });
            lemma_stored_actions(
                model,
                group.hash,
                candidates,
                Action::Download { namespace: started, hash },
            );
        }
        if hash == group.hash && model.missing.contains((hash, namespace)) && namespaces_in(
            candidates,
        ).contains(namespace) {
            lemma_stored_tells(model, hash, candidates, namespace);
        }
    } else if has_hash(model.queued, group.hash) {
    } else if eligible == Set::<NamespaceId>::empty() {
    } else {
        let started = Action::Download {
            namespace: candidates[0].namespace,
            hash: group.hash,
        };
        assert(actions[0] == started);
        assert(actions.contains(started));
        let waiting = choose|namespace: NamespaceId| eligible.contains(namespace);
        assert(exists|namespace: NamespaceId| eligible.contains(namespace)) by {
            if forall|namespace: NamespaceId| !eligible.contains(namespace) {
                assert(eligible =~= Set::<NamespaceId>::empty());
            }
        }
        assert(settled.queued.contains((group.hash, waiting)));
        let i = choose|i: int|
            0 <= i < candidates.len() && (#[trigger] candidates[i]).namespace == waiting;
        assert(providers_in(group.hash, candidates).contains((group.hash, candidates[i].node)));
        assert(settled.providers.contains((group.hash, candidates[i].node)));
    }
}

/// A download that is started in one of two parts is started in the whole.
proof fn lemma_starts_sum(a: Seq<Action>, b: Seq<Action>, hash: ContentHash)
    ensures
        starts_download(a + b, hash) <==> starts_download(a, hash) || starts_download(b, hash),
{
    if starts_download(a + b, hash) {
        let namespace = choose|namespace: NamespaceId| #[trigger]
            (a + b).contains(Action::Download { namespace, hash });
        lemma_contains_sum(a, b, Action::Download { namespace, hash });
    }
    if starts_download(a, hash) {
        let namespace = choose|namespace: NamespaceId| #[trigger]
            a.contains(Action::Download { namespace, hash });
        lemma_contains_sum(a, b, Action::Download { namespace, hash });
    }
    if starts_download(b, hash) {
        let namespace = choose|namespace: NamespaceId| #[trigger]
            b.contains(Action::Download { namespace, hash });
        lemma_contains_sum(a, b, Action::Download { namespace, hash });
    }
}

/// What considering several hashes does to the content of a document.
proof fn lemma_groups(
    model: LiveModel,
    groups: Seq<HashGroup>,
    statuses: Seq<BlobStatus>,
    n: nat,
    hash: ContentHash,
    namespace: NamespaceId,
)
    ensures
        ({
            let (settled, actions) = groups_settled(model, groups, statuses, n);
            &&& model.queued.subset_of(settled.queued)
            &&& model.providers.subset_of(settled.providers)
            &&& settled.missing.subset_of(model.missing)
            &&& has_hash(settled.queued, hash) ==> has_hash(model.queued, hash) || starts_download(
                actions,
                hash,
            )
            &&& starts_download(actions, hash) ==> {
                &&& !has_hash(model.queued, hash)
                &&& has_hash(settled.queued, hash)
                &&& has_provider(settled, hash)
            }
            &&& is_wanted(model, hash, namespace) ==> is_wanted(settled, hash, namespace)
                || tells_of_content(actions, namespace, hash)
            &&& is_wanted_twice(settled, hash, namespace) ==> is_wanted_twice(
                model,
                hash,
                namespace,
            )
        }),
    decreases n,
{
    if n > 0 {
        lemma_groups(model, groups, statuses, (n - 1) as nat, hash, namespace);
        let (before, actions) = groups_settled(model, groups, statuses, (n - 1) as nat);
        let group = groups[n - 1];
        let (after, more) = group_settled(before, group.hash, group.candidates@, statuses[n - 1]);
        lemma_group(before, group, statuses[n - 1], hash, namespace);
        lemma_starts_sum(actions, more, hash);
        lemma_contains_sum(
            actions,
            more,
            Action::Emit { namespace, event: Event::ContentReady { hash } },
        );
        if has_hash(model.queued, hash) {
            let waiting = choose|namespace: NamespaceId| #[trigger]
                model.queued.contains((hash, namespace));
            assert(before.queued.contains((hash, waiting)));
        }
        if has_hash(before.queued, hash) {
            let waiting = choose|namespace: NamespaceId| #[trigger]
                before.queued.contains((hash, namespace));
            assert(after.queued.contains((hash, waiting)));
        }
        if has_provider(before, hash) {
            let peer = choose|peer: PublicKey| #[trigger] before.providers.contains((hash, peer));
            assert(after.providers.contains((hash, peer)));
        }
    } else {
        assert(!starts_download(groups_settled(model, groups, statuses, n).1, hash));
    }
}

/// No two of the downloads that are started are of the same content.
proof fn lemma_groups_download_once(
    model: LiveModel,
    groups: Seq<HashGroup>,
    statuses: Seq<BlobStatus>,
    n: nat,
    i: int,
    j: int,
)
    requires
        0 <= i < j < groups_settled(model, groups, statuses, n).1.len(),
        groups_settled(model, groups, statuses, n).1[i] is Download,
        groups_settled(model, groups, statuses, n).1[j] is Download,
    ensures
        groups_settled(model, groups, statuses, n).1[i]->Download_hash != groups_settled(
            model,
            groups,
            statuses,
            n,
        ).1[j]->Download_hash,
    decreases n,
{
    let (before, actions) = groups_settled(model, groups, statuses, (n - 1) as nat);
    let group = groups[n - 1];
    let (after, more) = group_settled(before, group.hash, group.candidates@, statuses[n - 1]);
    let all = actions + more;
    if j < actions.len() {
        lemma_groups_download_once(model, groups, statuses, (n - 1) as nat, i, j);
    } else {
        let second = all[j];
        assert(more[j - actions.len()] == second);
        assert(more.contains(second));
        if statuses[n - 1] is Complete {
            lemma_stored_actions(before, group.hash, group.candidates@, second);
        }
        assert(i < actions.len());
        let first = all[i];
        assert(actions.contains(first));
        let hash = first->Download_hash;
        assert(first == Action::Download { namespace: first->Download_namespace, hash });
        assert(starts_download(actions, hash));
        lemma_groups(model, groups, statuses, (n - 1) as nat, hash, first->Download_namespace);
    }
}

/// Content that is waited for is being downloaded: its download was started in this step, or was
/// under way before and has not ended now.
pub proof fn what_is_queued_is_being_downloaded(
    before: LiveModel,
    input: Input,
    now: SystemTime,
    after: LiveModel,
    step: Step,
    hash: ContentHash,
)
    requires
        input_taken(before, input, now, after, step),
        has_hash(after.queued, hash),
    ensures
        starts_download(step.actions@, hash) || (has_hash(before.queued, hash) && !ends_download(
            input,
            hash,
        )),
{
    let namespace = choose|namespace: NamespaceId| #[trigger]
        after.queued.contains((hash, namespace));
    match input {
        Input::Statuses { query, statuses } => {
            let n = settled_count(query.groups(), statuses@);
            lemma_groups(before, query.groups(), statuses@, n, hash, namespace);
            let (settled, actions) = groups_settled(before, query.groups(), statuses@, n);
            if let AfterFlush::FinishSync { namespace, peer, resync } = query.purpose() {
                let more = sync_completed(settled, namespace, peer, resync, now).1;
                lemma_starts_sum(actions, more, hash);
            }
        },
        _ => {
            assert(before.queued.contains((hash, namespace)));
        },
    }
}

/// Content that is waited for is waited for until its download has ended.
pub proof fn queued_content_stays_queued(
    before: LiveModel,
    input: Input,
    now: SystemTime,
    after: LiveModel,
    step: Step,
    hash: ContentHash,
)
    requires
        input_taken(before, input, now, after, step),
        has_hash(before.queued, hash),
        !ends_download(input, hash),
    ensures
        has_hash(after.queued, hash),
{
    let namespace = choose|namespace: NamespaceId| #[trigger]
        before.queued.contains((hash, namespace));
    if let Input::Statuses { query, statuses } = input {
        let n = settled_count(query.groups(), statuses@);
        lemma_groups(before, query.groups(), statuses@, n, hash, namespace);
    }
    assert(after.queued.contains((hash, namespace)));
}

/// A download of content is started only while none of it is under way, from somebody who is known
/// to have it, and is then waited for.
pub proof fn a_download_is_started_once(
    before: LiveModel,
    input: Input,
    now: SystemTime,
    after: LiveModel,
    step: Step,
    hash: ContentHash,
)
    requires
        input_taken(before, input, now, after, step),
        starts_download(step.actions@, hash),
    ensures
        !has_hash(before.queued, hash),
        has_hash(after.queued, hash),
        has_provider(after, hash),
{
    let namespace = choose|namespace: NamespaceId| #[trigger]
        step.actions@.contains(Action::Download { namespace, hash });
    lemma_is_due(
        before,
        input,
        now,
        after,
        step,
        Action::Download { namespace, hash },
    );
    if let Input::Statuses { query, statuses } = input {
        let n = settled_count(query.groups(), statuses@);
        let (settled, actions) = groups_settled(before, query.groups(), statuses@, n);
        assert(starts_download(actions, hash));
        lemma_groups(before, query.groups(), statuses@, n, hash, namespace);
        assert(after.providers == settled.providers);
    }
}

/// No step starts two downloads of the same content.
pub proof fn no_step_starts_a_download_twice(
    before: LiveModel,
    input: Input,
    now: SystemTime,
    after: LiveModel,
    step: Step,
    i: int,
    j: int,
)
    requires
        input_taken(before, input, now, after, step),
        0 <= i < j < step.actions@.len(),
        step.actions@[i] is Download,
        step.actions@[j] is Download,
    ensures
        step.actions@[i]->Download_hash != step.actions@[j]->Download_hash,
{
    let first = step.actions@[i];
    let second = step.actions@[j];
    assert(step.actions@.contains(first) && step.actions@.contains(second));
    lemma_is_due(before, input, now, after, step, first);
    lemma_is_due(before, input, now, after, step, second);
    if let Input::Statuses { query, statuses } = input {
        let n = settled_count(query.groups(), statuses@);
        let (settled, actions) = groups_settled(before, query.groups(), statuses@, n);
        assert(j < actions.len()) by {
            if let AfterFlush::FinishSync { namespace, peer, resync } = query.purpose() {
                let more = sync_completed(settled, namespace, peer, resync, now).1;
                if j >= actions.len() {
                    assert(more[j - actions.len()] == second);
                    assert(more.contains(second));
                    lemma_completed_actions(settled, namespace, peer, resync, now, second);
                }
            }
        }
        lemma_groups_download_once(before, query.groups(), statuses@, n, i, j);
    }
}

/// Content that a document waits for or misses is not forgotten: it stays so until subscribers to
/// the document are told that it is available.
pub proof fn wanted_content_is_not_forgotten(
    before: LiveModel,
    input: Input,
    now: SystemTime,
    after: LiveModel,
    step: Step,
    hash: ContentHash,
    namespace: NamespaceId,
)
    requires
        input_taken(before, input, now, after, step),
        is_wanted(before, hash, namespace),
    ensures
        is_wanted(after, hash, namespace) || tells_of_content(step.actions@, namespace, hash),
{
    match input {
        Input::Statuses { query, statuses } => {
            let n = settled_count(query.groups(), statuses@);
            lemma_groups(before, query.groups(), statuses@, n, hash, namespace);
            let (settled, actions) = groups_settled(before, query.groups(), statuses@, n);
            if let AfterFlush::FinishSync { namespace: synced, peer, resync } = query.purpose() {
                let more = sync_completed(settled, synced, peer, resync, now).1;
                lemma_contains_sum(
                    actions,
                    more,
                    Action::Emit { namespace, event: Event::ContentReady { hash } },
                );
            }
        },
        Input::Download(Some(end)) => {
            if end.success && end.hash == hash && before.queued.contains((hash, namespace)) {
                downloaded_content_is_announced(before, now, after, step, hash, namespace);
            }
        },
        _ => {},
    }
}

/// Content that a document waits for is not missing there, but for one case: another entry with
/// this content came while it was waited for.
pub proof fn what_is_waited_for_is_not_missing(
    before: LiveModel,
    input: Input,
    now: SystemTime,
    after: LiveModel,
    step: Step,
    hash: ContentHash,
    namespace: NamespaceId,
)
    requires
        input_taken(before, input, now, after, step),
        !is_wanted_twice(before, hash, namespace),
        !brings_entry(input, hash, namespace),
    ensures
        !is_wanted_twice(after, hash, namespace),
{
    if let Input::Statuses { query, statuses } = input {
        let n = settled_count(query.groups(), statuses@);
        lemma_groups(before, query.groups(), statuses@, n, hash, namespace);
    }
}

/// Content that was downloaded is announced to the subscribers of exactly the documents that
/// waited for it, which neither wait for it nor miss it any longer.
pub proof fn downloaded_content_is_announced(
    before: LiveModel,
    now: SystemTime,
    after: LiveModel,
    step: Step,
    hash: ContentHash,
    namespace: NamespaceId,
)
    requires
        input_taken(
            before,
            Input::Download(Some(DownloadEnd { hash, success: true })),
            now,
            after,
            step,
        ),
    ensures
        tells_of_content(step.actions@, namespace, hash) <==> before.queued.contains(
            (hash, namespace),
        ),
        before.queued.contains((hash, namespace)) ==> !is_wanted(after, hash, namespace),
        !has_hash(after.queued, hash),
{
    let actions = step.actions@;
    let waiting = choose|waiting: Seq<NamespaceId>|
        {
            &&& #[trigger] enumerates(waiting, namespaces_of(before.queued, hash))
            &&& (after, actions) == download_ended(before, hash, true, waiting)
        };
    let completed = waiting.filter(
        |namespace: NamespaceId| is_last_hash(before.queued, hash, namespace),
    );
    let announced = content_ready_for_all(before.states, waiting, hash);
    let ready = ready_actions(before.states, completed);
    let action = Action::Emit { namespace, event: Event::ContentReady { hash } };
    lemma_contains_sum(announced, ready, action);
    lemma_all_told(before.states, waiting, hash, namespace);
    assert(waiting.to_set().contains(namespace) <==> waiting.contains(namespace));
}

/// Exactly the given documents are told.
proof fn lemma_all_told(
    states: States,
    namespaces: Seq<NamespaceId>,
    hash: ContentHash,
    namespace: NamespaceId,
)
    ensures
        tells_of_content(content_ready_for_all(states, namespaces, hash), namespace, hash)
            <==> namespaces.contains(namespace),
    decreases namespaces.len(),
{
    if namespaces.len() > 0 {
        let front = namespaces.drop_last();
        let action = Action::Emit { namespace, event: Event::ContentReady { hash } };
        let more = content_ready_actions(states, namespaces.last(), hash);
        lemma_all_told(states, front, hash, namespace);
        lemma_contains_sum(content_ready_for_all(states, front, hash), more, action);
        assert(namespaces =~= front + seq![namespaces.last()]);
        lemma_contains_sum(front, seq![namespaces.last()], namespace);
        assert(more[0] == Action::Emit {
            namespace: namespaces.last(),
            event: Event::ContentReady { hash },
        });
        assert(seq![namespaces.last()][0] == namespaces.last());
    }
}

/// Content whose download failed is missing where it was waited for, and waited for no longer. No
/// content is announced.
pub proof fn content_that_failed_is_missing(
    before: LiveModel,
    now: SystemTime,
    after: LiveModel,
    step: Step,
    hash: ContentHash,
    namespace: NamespaceId,
)
    requires
        input_taken(
            before,
            Input::Download(Some(DownloadEnd { hash, success: false })),
            now,
            after,
            step,
        ),
    ensures
        after.missing.contains((hash, namespace)) <==> is_wanted(before, hash, namespace),
        !has_hash(after.queued, hash),
        forall|other: ContentHash| !tells_of_content(step.actions@, namespace, other),
{
}

/// Each hash that is waited for has a known provider, and the end of downloads is to be announced
/// only to documents that wait for some.
pub open spec fn is_consistent(model: LiveModel) -> bool {
    &&& forall|hash: ContentHash| #[trigger]
        has_hash(model.queued, hash) ==> has_provider(model, hash)
    &&& forall|namespace: NamespaceId| #[trigger]
        ready_due(model.states, namespace) ==> has_namespace(model.queued, namespace)
}

/// An engine that knows of nothing is consistent.
pub proof fn a_new_engine_is_consistent(model: LiveModel)
    requires
        model.states == Map::<NamespaceId, NamespaceModel>::empty(),
        model.queued == Set::<(ContentHash, NamespaceId)>::empty(),
    ensures
        is_consistent(model),
{
}

/// Whatever happens, a consistent engine stays so.
pub proof fn consistency_is_kept(
    before: LiveModel,
    input: Input,
    now: SystemTime,
    after: LiveModel,
    step: Step,
)
    requires
        is_consistent(before),
        input_taken(before, input, now, after, step),
    ensures
        is_consistent(after),
{
    assert forall|hash: ContentHash| #[trigger] has_hash(after.queued, hash) implies has_provider(
        after,
        hash,
    ) by {
        what_is_queued_is_being_downloaded(before, input, now, after, step, hash);
        if starts_download(step.actions@, hash) {
            a_download_is_started_once(before, input, now, after, step, hash);
        } else {
            providers_are_kept(before, input, now, after, step);
            let peer = choose|peer: PublicKey| #[trigger] before.providers.contains((hash, peer));
            assert(after.providers.contains((hash, peer)));
        }
    }
    assert forall|namespace: NamespaceId| #[trigger]
        ready_due(after.states, namespace) implies has_namespace(after.queued, namespace) by {
        lemma_announcement_stays_owed(before, input, now, after, step, namespace);
    }
}

/// Peers that are known to have content stay known.
pub proof fn providers_are_kept(
    before: LiveModel,
    input: Input,
    now: SystemTime,
    after: LiveModel,
    step: Step,
)
    requires
        input_taken(before, input, now, after, step),
    ensures
        before.providers.subset_of(after.providers),
{
    if let Input::Statuses { query, statuses } = input {
        let n = settled_count(query.groups(), statuses@);
        assert forall|pair: (ContentHash, PublicKey)|
            before.providers.contains(pair) implies after.providers.contains(pair) by {
            lemma_groups_keep_providers(before, query.groups(), statuses@, n);
        }
    }
}

proof fn lemma_groups_keep_providers(
    model: LiveModel,
    groups: Seq<HashGroup>,
    statuses: Seq<BlobStatus>,
    n: nat,
)
    ensures
        model.providers.subset_of(groups_settled(model, groups, statuses, n).0.providers),
    decreases n,
{
    if n > 0 {
        lemma_groups_keep_providers(model, groups, statuses, (n - 1) as nat);
    }
}

/// Joining changes nothing of what is to be announced.
proof fn lemma_joining_keeps_due(
    states: States,
    namespace: NamespaceId,
    peers: Seq<PublicKey>,
    now: SystemTime,
    other: NamespaceId,
)
    ensures
        ready_due(peers_joined(states, namespace, peers, now), other) == ready_due(states, other),
    decreases peers.len(),
{
    if peers.len() > 0 {
        lemma_joining_keeps_due(states, namespace, peers.drop_last(), now, other);
    }
}

proof fn lemma_announcement_stays_owed(
    before: LiveModel,
    input: Input,
    now: SystemTime,
    after: LiveModel,
    step: Step,
    namespace: NamespaceId,
)
    requires
        ready_due(before.states, namespace) ==> has_namespace(before.queued, namespace),
        input_taken(before, input, now, after, step),
        ready_due(after.states, namespace),
    ensures
        has_namespace(after.queued, namespace),
{
    match input {
        Input::Statuses { query, statuses } => {
            let n = settled_count(query.groups(), statuses@);
            lemma_settled(before, query.groups(), statuses@, n);
            let settled = groups_settled(before, query.groups(), statuses@, n).0;
            if has_namespace(before.queued, namespace) {
                let hash = choose|hash: ContentHash| #[trigger]
                    before.queued.contains((hash, namespace));
                lemma_groups(before, query.groups(), statuses@, n, hash, namespace);
                assert(settled.queued.contains((hash, namespace)));
            }
        },
        Input::Joined { namespace: joined, peer_ids, joined: true } => {
            lemma_joining_keeps_due(before.states, joined, peer_ids@, now, namespace);
        },
        Input::Download(Some(end)) => {
            let waiting = choose|waiting: Seq<NamespaceId>|
                {
                    &&& #[trigger] enumerates(waiting, namespaces_of(before.queued, end.hash))
                    &&& (after, step.actions@) == download_ended(
                        before,
                        end.hash,
                        end.success,
                        waiting,
                    )
                };
            let is_last = |namespace: NamespaceId|
                is_last_hash(before.queued, end.hash, namespace);
            lemma_filter_distinct(waiting, is_last);
            assert(waiting.to_set().contains(namespace) <==> waiting.contains(namespace));
            assert(!is_last_hash(before.queued, end.hash, namespace));
            let hash = choose|hash: ContentHash| #[trigger]
                before.queued.contains((hash, namespace)) && hash != end.hash;
            assert(exists|hash: ContentHash| #[trigger]
                before.queued.contains((hash, namespace)) && hash != end.hash);
            assert(after.queued.contains((hash, namespace)));
        },
        _ => {},
    }
}

/// Subscribers to the document are told that nothing is pending any longer.
pub open spec fn tells_nothing_pending(actions: Seq<Action>, namespace: NamespaceId) -> bool {
    actions.contains(Action::Emit { namespace, event: Event::PendingContentReady })
}

/// Subscribers to the document are told of the end of a sync.
pub open spec fn tells_of_sync(actions: Seq<Action>, namespace: NamespaceId) -> bool {
    exists|event: SyncEvent| #[trigger]
        actions.contains(Action::Emit { namespace, event: Event::SyncFinished(event) })
}

/// The answer to a question that was asked at the end of a sync of the document.
pub open spec fn answers_for_sync(input: Input, namespace: NamespaceId) -> bool {
    &&& input matches Input::Statuses { query, .. }
    &&& query.purpose() matches AfterFlush::FinishSync { namespace: synced, .. }
    &&& synced == namespace
}

/// The question is asked at the end of a sync of the document.
pub open spec fn asks_for_sync(step: Step, namespace: NamespaceId) -> bool {
    &&& step.next matches Next::QueryStatuses(query)
    &&& query.purpose() matches AfterFlush::FinishSync { namespace: synced, .. }
    &&& synced == namespace
}

/// When subscribers are told that nothing is pending, the document waits for no download, and no
/// further such announcement is due.
pub proof fn nothing_is_pending_when_that_is_announced(
    before: LiveModel,
    input: Input,
    now: SystemTime,
    after: LiveModel,
    step: Step,
    namespace: NamespaceId,
)
    requires
        input_taken(before, input, now, after, step),
        tells_nothing_pending(step.actions@, namespace),
    ensures
        !has_namespace(after.queued, namespace),
        !ready_due(after.states, namespace),
{
    let action = Action::Emit { namespace, event: Event::PendingContentReady };
    lemma_is_due(before, input, now, after, step, action);
    match input {
        Input::Download(Some(end)) => {
            let waiting = choose|waiting: Seq<NamespaceId>|
                {
                    &&& #[trigger] enumerates(waiting, namespaces_of(before.queued, end.hash))
                    &&& (after, step.actions@) == download_ended(
                        before,
                        end.hash,
                        end.success,
                        waiting,
                    )
                };
            let is_last = |namespace: NamespaceId|
                is_last_hash(before.queued, end.hash, namespace);
            lemma_filter_distinct(waiting, is_last);
            assert(waiting.to_set().contains(namespace) <==> waiting.contains(namespace));
        },
        _ => {},
    }
}

/// When the last download that a document waits for has ended, however it did, and an announcement
/// is due, subscribers are told that nothing is pending.
pub proof fn the_end_of_the_last_download_is_announced(
    before: LiveModel,
    end: DownloadEnd,
    now: SystemTime,
    after: LiveModel,
    step: Step,
    namespace: NamespaceId,
)
    requires
        input_taken(before, Input::Download(Some(end)), now, after, step),
        is_last_hash(before.queued, end.hash, namespace),
        ready_due(before.states, namespace),
    ensures
        tells_nothing_pending(step.actions@, namespace),
{
    let actions = step.actions@;
    let waiting = choose|waiting: Seq<NamespaceId>|
        {
            &&& #[trigger] enumerates(waiting, namespaces_of(before.queued, end.hash))
            &&& (after, actions) == download_ended(before, end.hash, end.success, waiting)
        };
    let is_last = |namespace: NamespaceId| is_last_hash(before.queued, end.hash, namespace);
    let is_due = |namespace: NamespaceId| ready_due(before.states, namespace);
    let completed = waiting.filter(is_last);
    let due = completed.filter(is_due);
    lemma_filter_distinct(waiting, is_last);
    lemma_filter_distinct(completed, is_due);
    assert(waiting.to_set().contains(namespace) <==> waiting.contains(namespace));
    assert(due.contains(namespace));
    let ready = ready_actions(before.states, completed);
    let action = Action::Emit { namespace, event: Event::PendingContentReady };
    assert(ready[due.index_of(namespace)] == action);
    assert(ready.contains(action));
    lemma_contains_sum(content_ready_for_all(before.states, waiting, end.hash), ready, action);
}

/// The end of a sync is told before it is told that nothing is pending; and where the sync is
/// completed only after a question, nothing is told of that yet.
proof fn lemma_finish_tells(
    before: LiveModel,
    namespace: NamespaceId,
    peer: PublicKey,
    origin: Origin,
    result: Result<SyncFinished, String>,
    now: SystemTime,
    after: LiveModel,
    step: Step,
    about: NamespaceId,
)
    requires
        sync_finish_taken(before, namespace, peer, origin, result, now, after, step),
    ensures
        tells_nothing_pending(step.actions@, about) ==> tells_of_sync(step.actions@, about)
            && !asks_for_sync(step, about),
        asks_for_sync(step, about) ==> tells_of_sync(step.actions@, about),
        ready_due(after.states, about) && !ready_due(before.states, about) ==> tells_of_sync(
            step.actions@,
            about,
        ) && !asks_for_sync(step, about),
        ended(before.states, namespace, peer, origin) is Some && about == namespace ==> {
            ||| asks_for_sync(step, about)
            ||| tells_nothing_pending(step.actions@, about)
            ||| ready_due(after.states, about)
        },
{
    let pending = Action::Emit { namespace: about, event: Event::PendingContentReady };
    if step.actions@.contains(pending) {
        lemma_finish_actions(
            before,
            namespace,
            peer,
            origin,
            result,
            now,
            after,
            step,
            pending,
        );
    }
    if let Some((started, resync)) = ended(before.states, namespace, peer, origin) {
        let report = report_actions(before.states, namespace, peer, result);
        let event = sync_event(peer, origin, started, now, result);
        let told = report.push(Action::Emit { namespace, event });
        assert(told.last() == Action::Emit { namespace, event });
        assert(step.actions@[told.len() - 1] == Action::Emit { namespace, event });
        assert(step.actions@.contains(Action::Emit { namespace, event }));
        assert(tells_of_sync(step.actions@, namespace));
        let idle = LiveModel {
            states: sync_ended(before.states, namespace, peer, origin),
            ..before
        };
        let more = sync_completed(idle, namespace, peer, resync, now).1;
        if !(result is Ok && has_namespace(before.missing, namespace)) && !has_namespace(
            before.queued,
            namespace,
        ) {
            assert(more[0] == Action::Emit { namespace, event: Event::PendingContentReady });
            assert(step.actions@[told.len() as int] == more[0]);
            assert(step.actions@.contains(more[0]));
        }
    }
}

/// Where a step tells both of the end of a sync and that nothing is pending, it tells of the sync
/// first.
pub proof fn the_end_of_a_sync_is_told_first(
    before: LiveModel,
    namespace: NamespaceId,
    peer: PublicKey,
    origin: Origin,
    result: Result<SyncFinished, String>,
    now: SystemTime,
    after: LiveModel,
    step: Step,
    i: int,
    j: int,
    event: SyncEvent,
)
    requires
        sync_finish_taken(before, namespace, peer, origin, result, now, after, step),
        0 <= i < step.actions@.len(),
        0 <= j < step.actions@.len(),
        step.actions@[i] == (Action::Emit { namespace, event: Event::SyncFinished(event) }),
        step.actions@[j] == (Action::Emit { namespace, event: Event::PendingContentReady }),
    ensures
        i < j,
{
    let report = report_actions(before.states, namespace, peer, result);
    assert(forall|k: int| 0 <= k < report.len() ==> !(#[trigger] report[k] is Emit));
    if let Some((started, resync)) = ended(before.states, namespace, peer, origin) {
        let told = report.push(
            Action::Emit { namespace, event: sync_event(peer, origin, started, now, result) },
        );
        assert(forall|k: int| 0 <= k < report.len() ==> told[k] == report[k]);
        assert(forall|k: int| 0 <= k < told.len() ==> step.actions@[k] == told[k]);
        let idle = LiveModel {
            states: sync_ended(before.states, namespace, peer, origin),
            ..before
        };
        let more = sync_completed(idle, namespace, peer, resync, now).1;
        assert(forall|k: int|
            told.len() <= k < step.actions@.len() ==> step.actions@[k] == more[k - told.len()]);
    }
}

/// How syncs and announcements hang together in one step.
pub(crate) proof fn lemma_step_tells(
    before: LiveModel,
    input: Input,
    now: SystemTime,
    after: LiveModel,
    step: Step,
    namespace: NamespaceId,
)
    requires
        input_taken(before, input, now, after, step),
    ensures
        tells_nothing_pending(step.actions@, namespace) ==> {
            ||| tells_of_sync(step.actions@, namespace)
            ||| answers_for_sync(input, namespace)
            ||| ready_due(before.states, namespace)
        },
        tells_nothing_pending(step.actions@, namespace) ==> !asks_for_sync(step, namespace),
        asks_for_sync(step, namespace) ==> tells_of_sync(step.actions@, namespace),
        ready_due(after.states, namespace) && !ready_due(before.states, namespace) ==> {
            ||| tells_of_sync(step.actions@, namespace)
            ||| answers_for_sync(input, namespace)
        },
{
    let pending = Action::Emit { namespace, event: Event::PendingContentReady };
    if step.actions@.contains(pending) {
        lemma_is_due(before, input, now, after, step, pending);
    }
    match input {
        Input::SyncConnect(Some(end)) => {
            lemma_finish_tells(
                before,
                end.namespace,
                end.peer,
                Origin::Connect(end.reason),
                in_words(end.result),
                now,
                after,
                step,
                namespace,
            );
        },
        Input::SyncAccept(Some(Ok(finished))) => {
            lemma_finish_tells(
                before,
                finished.namespace,
                finished.peer,
                Origin::Accept,
                Ok(finished),
                now,
                after,
                step,
                namespace,
            );
        },
        Input::SyncAccept(Some(Err(err))) => {
            if !err.is_already_syncing() && err.known_peer() is Some
                && err.known_namespace() is Some {
                lemma_finish_tells(
                    before,
                    err.known_namespace()->0,
                    err.known_peer()->0,
                    Origin::Accept,
                    Err(err.text()),
                    now,
                    after,
                    step,
                    namespace,
                );
            }
        },
        Input::Joined { namespace: joined, peer_ids, joined: true } => {
            lemma_joining_keeps_due(before.states, joined, peer_ids@, now, namespace);
        },
        Input::Statuses { query, statuses } => {
            let n = settled_count(query.groups(), statuses@);
            lemma_settled(before, query.groups(), statuses@, n);
        },
        _ => {},
    }
}

/// At the end of every sync subscribers are told that nothing is pending, or will be when the last
/// pending download has ended. Where content is asked for first, this holds once the answer is
/// known, unless the document is no longer synced.
pub proof fn every_sync_leads_to_an_announcement(
    before: LiveModel,
    input: Input,
    now: SystemTime,
    after: LiveModel,
    step: Step,
    namespace: NamespaceId,
    peer: PublicKey,
    start: SystemTime,
    origin: Origin,
)
    requires
        input_taken(before, input, now, after, step),
        answers_for_sync(input, namespace) || (ends_sync(input, namespace, peer, origin)
            && peer_state(before.states, namespace, peer).sync == (SyncState::Running {
            start,
            origin,
        })),
    ensures
        tells_nothing_pending(step.actions@, namespace) || ready_due(after.states, namespace)
            || asks_for_sync(step, namespace) || !before.states.contains_key(namespace),
{
    match input {
        Input::SyncConnect(Some(end)) => {
            let result = in_words(end.result);
            lemma_finish_tells(
                before,
                namespace,
                peer,
                origin,
                result,
                now,
                after,
                step,
                namespace,
            );
        },
        Input::SyncAccept(Some(Ok(finished))) => {
            lemma_finish_tells(
                before,
                namespace,
                peer,
                origin,
                Ok(finished),
                now,
                after,
                step,
                namespace,
            );
        },
        Input::SyncAccept(Some(Err(err))) => {
            lemma_finish_tells(
                before,
                namespace,
                peer,
                origin,
                Err(err.text()),
                now,
                after,
                step,
                namespace,
            );
        },
        Input::Statuses { query, statuses } => {
            let n = settled_count(query.groups(), statuses@);
            lemma_settled(before, query.groups(), statuses@, n);
            let (settled, actions) = groups_settled(before, query.groups(), statuses@, n);
            if let AfterFlush::FinishSync { namespace: synced, peer: with, resync } =
                query.purpose() {
                let more = sync_completed(settled, synced, with, resync, now).1;
                let action = Action::Emit { namespace, event: Event::PendingContentReady };
                lemma_contains_sum(actions, more, action);
                if !has_namespace(settled.queued, namespace) {
                    assert(more[0] == action);
                }
            }
        },
        _ => {},
    }
}

/// The groups hold the candidate.
pub open spec fn is_asked_about(groups: Seq<HashGroup>, candidate: DownloadCandidate) -> bool {
    exists|i: int|
        {
            &&& 0 <= i < groups.len()
            &&& (#[trigger] groups[i]).hash == candidate.hash
            &&& groups[i].candidates@.contains(candidate)
        }
}

/// Every candidate is asked about.
pub(crate) proof fn lemma_grouped(
    pending: Seq<DownloadCandidate>,
    groups: Seq<HashGroup>,
    candidate: DownloadCandidate,
)
    requires
        is_grouping(pending, groups),
        pending.contains(candidate),
    ensures
        is_asked_about(groups, candidate),
{
    let k = pending.index_of(candidate);
    assert(pending[k].hash == candidate.hash);
    assert(has_group(groups, candidate.hash));
    let i = choose|i: int| 0 <= i < groups.len() && (#[trigger] groups[i]).hash == candidate.hash;
    pending.lemma_filter_contains(
        |other: DownloadCandidate| other.hash == candidate.hash,
        k,
    );
    assert(groups[i].candidates@.contains(candidate));
}

/// Downloads that came up are all asked about when they are taken up.
pub proof fn pending_downloads_are_asked_about(
    before: LiveModel,
    purpose: AfterFlush,
    after: LiveModel,
    query: Option<StatusQuery>,
    candidate: DownloadCandidate,
)
    requires
        flush_taken(before, purpose, after, query),
        before.pending.contains(candidate),
    ensures
        query matches Some(query) && is_asked_about(query.groups(), candidate),
{
    if let Some(query) = query {
        lemma_grouped(before.pending, query.groups(), candidate);
    }
}

proof fn lemma_redriven(
    before: LiveModel,
    namespace: NamespaceId,
    peer: PublicKey,
    groups: Seq<HashGroup>,
    hash: ContentHash,
)
    requires
        is_redrive(before, namespace, peer, groups),
        before.missing.contains((hash, namespace)),
    ensures
        is_asked_about(
            groups,
            DownloadCandidate { namespace, hash, node: peer, only_if_missing: true },
        ),
{
    let candidate = DownloadCandidate { namespace, hash, node: peer, only_if_missing: true };
    let hashes = choose|hashes: Seq<ContentHash>|
        {
            &&& #[trigger] enumerates(hashes, hashes_of(before.missing, namespace))
            &&& is_grouping(before.pending + redriven(namespace, peer, hashes), groups)
        };
    assert(hashes.to_set().contains(hash));
    assert(redriven(namespace, peer, hashes)[hashes.index_of(hash)] == candidate);
    lemma_contains_sum(before.pending, redriven(namespace, peer, hashes), candidate);
    lemma_grouped(before.pending + redriven(namespace, peer, hashes), groups, candidate);
}

/// After a sync that succeeded, every piece of content that the document misses is asked for from
/// the peer.
pub proof fn missing_content_is_asked_for_after_a_sync(
    before: LiveModel,
    namespace: NamespaceId,
    peer: PublicKey,
    origin: Origin,
    finished: SyncFinished,
    now: SystemTime,
    after: LiveModel,
    step: Step,
    hash: ContentHash,
)
    requires
        sync_finish_taken(before, namespace, peer, origin, Ok(finished), now, after, step),
        ended(before.states, namespace, peer, origin) is Some,
        before.missing.contains((hash, namespace)),
    ensures
        asks_for_sync(step, namespace),
        step.next matches Next::QueryStatuses(query) && is_asked_about(
            query.groups(),
            DownloadCandidate { namespace, hash, node: peer, only_if_missing: true },
        ),
{
    if let Next::QueryStatuses(query) = step.next {
        lemma_redriven(before, namespace, peer, query.groups(), hash);
    }
}

/// Content that is stored here already is announced for a candidate that does not care whether it
/// was missing.
proof fn lemma_stored_tells_anyway(
    model: LiveModel,
    hash: ContentHash,
    candidates: Seq<DownloadCandidate>,
    k: int,
)
    requires
        0 <= k < candidates.len(),
        !candidates[k].only_if_missing,
    ensures
        tells_of_content(stored_actions(model, hash, candidates), candidates[k].namespace, hash),
    decreases candidates.len(),
{
    let namespace = candidates[k].namespace;
    let front = candidates.drop_last();
    let last = candidates.len() - 1;
    let done = stored_actions(model, hash, front);
    let more = if announces(model.missing, hash, candidates, last) {
        content_ready_actions(model.states, candidates[last].namespace, hash)
    } else {
        Seq::empty()
    };
    let action = Action::Emit { namespace, event: Event::ContentReady { hash } };
    lemma_contains_sum(done, more, action);
    if k < last {
        lemma_stored_tells_anyway(model, hash, front, k);
    } else {
        assert(more[0] == action);
    }
}

/// Considering other hashes leaves a hash alone.
proof fn lemma_untouched(
    model: LiveModel,
    groups: Seq<HashGroup>,
    statuses: Seq<BlobStatus>,
    n: nat,
    hash: ContentHash,
    namespace: NamespaceId,
)
    requires
        n <= groups.len(),
        forall|k: int| 0 <= k < n ==> (#[trigger] groups[k]).hash != hash,
    ensures
        ({
            let settled = groups_settled(model, groups, statuses, n).0;
            &&& settled.missing.contains((hash, namespace)) == model.missing.contains(
                (hash, namespace),
            )
            &&& settled.queued.contains((hash, namespace)) == model.queued.contains(
                (hash, namespace),
            )
        }),
    decreases n,
{
    if n > 0 {
        lemma_untouched(model, groups, statuses, (n - 1) as nat, hash, namespace);
        assert(groups[n - 1].hash != hash);
    }
}

proof fn lemma_found_or_queued(
    model: LiveModel,
    groups: Seq<HashGroup>,
    statuses: Seq<BlobStatus>,
    n: nat,
    i: int,
    candidate: DownloadCandidate,
)
    requires
        0 <= i < n <= groups.len(),
        forall|j: int, k: int|
            0 <= j < k < groups.len() ==> (#[trigger] groups[j]).hash != (#[trigger] groups[k]).hash,
        groups[i].hash == candidate.hash,
        groups[i].candidates@.contains(candidate),
        is_eligible(model.missing, candidate.hash, candidate),
    ensures
        ({
            let (settled, actions) = groups_settled(model, groups, statuses, n);
            &&& !settled.missing.contains((candidate.hash, candidate.namespace))
            &&& if statuses[i] is Complete {
                tells_of_content(actions, candidate.namespace, candidate.hash)
            } else {
                settled.queued.contains((candidate.hash, candidate.namespace))
            }
        }),
    decreases n,
{
    let hash = candidate.hash;
    let namespace = candidate.namespace;
    let (before, actions) = groups_settled(model, groups, statuses, (n - 1) as nat);
    let group = groups[n - 1];
    let candidates = group.candidates@;
    let (after, more) = group_settled(before, group.hash, candidates, statuses[n - 1]);
    lemma_contains_sum(
        actions,
        more,
        Action::Emit { namespace, event: Event::ContentReady { hash } },
    );
    if i < n - 1 {
        lemma_found_or_queued(model, groups, statuses, (n - 1) as nat, i, candidate);
        lemma_group(before, group, statuses[n - 1], hash, namespace);
    } else {
        lemma_untouched(model, groups, statuses, (n - 1) as nat, hash, namespace);
        let k = candidates.index_of(candidate);
        assert(candidates[k] == candidate);
        assert(namespaces_in(candidates).contains(namespace));
        assert(eligible_namespaces(before.missing, hash, candidates).contains(namespace));
        if statuses[i] is Complete {
            if candidate.only_if_missing {
                lemma_stored_tells(before, hash, candidates, namespace);
            } else {
                lemma_stored_tells_anyway(before, hash, candidates, k);
            }
        }
    }
}

/// Content that was asked about and is still wanted is announced if it is all stored here, and is
/// waited for otherwise. Either way it is not missing any longer.
pub proof fn wanted_content_is_found_or_queued(
    before: LiveModel,
    query: StatusQuery,
    statuses: Vec<BlobStatus>,
    now: SystemTime,
    after: LiveModel,
    step: Step,
    i: int,
    candidate: DownloadCandidate,
)
    requires
        input_taken(before, Input::Statuses { query, statuses }, now, after, step),
        0 <= i < query.groups().len(),
        i < statuses@.len(),
        forall|j: int, k: int|
            0 <= j < k < query.groups().len() ==> (#[trigger] query.groups()[j]).hash != (
            #[trigger] query.groups()[k]).hash,
        query.groups()[i].hash == candidate.hash,
        query.groups()[i].candidates@.contains(candidate),
        is_eligible(before.missing, candidate.hash, candidate),
    ensures
        !after.missing.contains((candidate.hash, candidate.namespace)),
        if statuses@[i] is Complete {
            tells_of_content(step.actions@, candidate.namespace, candidate.hash)
        } else {
            after.queued.contains((candidate.hash, candidate.namespace))
        },
{
    let n = settled_count(query.groups(), statuses@);
    lemma_found_or_queued(before, query.groups(), statuses@, n, i, candidate);
    let (settled, actions) = groups_settled(before, query.groups(), statuses@, n);
    if let AfterFlush::FinishSync { namespace, peer, resync } = query.purpose() {
        let more = sync_completed(settled, namespace, peer, resync, now).1;
        lemma_contains_sum(
            actions,
            more,
            Action::Emit {
                namespace: candidate.namespace,
                event: Event::ContentReady { hash: candidate.hash },
            },
        );
    }
}

/// Content that nobody waits for, and that is offered only to documents that do not miss it, is
/// neither downloaded nor announced; at most it is remembered who has it.
pub proof fn unwanted_content_is_left_alone(
    model: LiveModel,
    hash: ContentHash,
    candidates: Seq<DownloadCandidate>,
    status: BlobStatus,
)
    requires
        !has_hash(model.queued, hash),
        forall|i: int|
            0 <= i < candidates.len() ==> (#[trigger] candidates[i]).only_if_missing
                && !model.missing.contains((hash, candidates[i].namespace)),
    ensures
        group_settled(model, hash, candidates, status).1 == Seq::<Action>::empty(),
        group_settled(model, hash, candidates, status).0 == (LiveModel {
            providers: group_settled(model, hash, candidates, status).0.providers,
            ..model
        }),
{
    assert(eligible_namespaces(model.missing, hash, candidates) =~= Set::<NamespaceId>::empty());
    if status is Complete {
        lemma_nothing_stored(model, hash, candidates);
        assert(model.missing.difference(pairs_with(hash, namespaces_in(candidates)))
            =~= model.missing);
    }
}

proof fn lemma_nothing_stored(
    model: LiveModel,
    hash: ContentHash,
    candidates: Seq<DownloadCandidate>,
)
    requires
        forall|i: int|
            0 <= i < candidates.len() ==> (#[trigger] candidates[i]).only_if_missing
                && !model.missing.contains((hash, candidates[i].namespace)),
    ensures
        stored_actions(model, hash, candidates) == Seq::<Action>::empty(),
    decreases candidates.len(),
{
    if candidates.len() > 0 {
        let front = candidates.drop_last();
        assert forall|i: int| 0 <= i < front.len() implies (#[trigger] front[i]).only_if_missing
            && !model.missing.contains((hash, front[i].namespace)) by {
            assert(front[i] == candidates[i]);
        }
        lemma_nothing_stored(model, hash, front);
        assert(candidates[candidates.len() - 1].only_if_missing);
        assert(stored_actions(model, hash, candidates) =~= Seq::<Action>::empty());
    }
}

/// What one document misses is its own affair: filling a gap of one leaves the gaps of another.
pub proof fn gaps_are_kept_per_document(
    missing: Pairs,
    hash: ContentHash,
    namespace: NamespaceId,
    other: NamespaceId,
)
    requires
        namespace != other,
    ensures
        hashes_of(missing.remove((hash, namespace)), other) == hashes_of(missing, other),
        hashes_of(missing.insert((hash, namespace)), other) == hashes_of(missing, other),
        hashes_of(missing.remove((hash, namespace)), namespace) == hashes_of(
            missing,
            namespace,
        ).remove(hash),
        hashes_of(missing.insert((hash, namespace)), namespace) == hashes_of(
            missing,
            namespace,
        ).insert(hash),
{
    assert(hashes_of(missing.remove((hash, namespace)), other) =~= hashes_of(missing, other));
    assert(hashes_of(missing.insert((hash, namespace)), other) =~= hashes_of(missing, other));
    assert(hashes_of(missing.remove((hash, namespace)), namespace) =~= hashes_of(
        missing,
        namespace,
    ).remove(hash));
    assert(hashes_of(missing.insert((hash, namespace)), namespace) =~= hashes_of(
        missing,
        namespace,
    ).insert(hash));
}

/// It makes no difference how the statuses were come by. If a batch request failed, or did not give
/// one status for each hash, and the hashes were asked about one by one, the engine and its actions
/// are those that a full batch of the same statuses leads to. No group is left without a status,
/// and each gets that of its own hash.
pub proof fn asking_one_by_one_changes_nothing(
    before: LiveModel,
    query: StatusQuery,
    hashes: Vec<ContentHash>,
    lookup: spec_fn(ContentHash) -> Option<BlobStatus>,
    failed: Option<Vec<BlobStatus>>,
    replies: Vec<Option<BlobStatus>>,
    singles: Vec<BlobStatus>,
    full: Vec<BlobStatus>,
    now: SystemTime,
    after_singles: LiveModel,
    step_singles: Step,
    after_full: LiveModel,
    step_full: Step,
)
    requires
        hashes@ == query.groups().map_values(|group: HashGroup| group.hash),
        usable_batch(hashes@.len(), failed) is None,
        replies@ == hashes@.map_values(lookup),
        singles@ == replies@.map_values(|reply: Option<BlobStatus>| status_or_not_found(reply)),
        full@ == hashes@.map_values(|hash: ContentHash| status_or_not_found(lookup(hash))),
        input_taken(
            before,
            Input::Statuses { query, statuses: singles },
            now,
            after_singles,
            step_singles,
        ),
        input_taken(before, Input::Statuses { query, statuses: full }, now, after_full, step_full),
    ensures
        usable_batch(hashes@.len(), Some(full)) == Some(full),
        settled_count(query.groups(), singles@) == query.groups().len(),
        settled_count(query.groups(), full@) == query.groups().len(),
        forall|i: int|
            0 <= i < query.groups().len() ==> #[trigger] singles@[i] == status_or_not_found(
                lookup(query.groups()[i].hash),
            ),
        after_singles == after_full,
        step_singles.actions@ == step_full.actions@,
{
    assert(singles@ =~= full@);
}

/// What comes of each of the documents, one after the other.
spec fn in_turn(
    namespaces: Seq<NamespaceId>,
    actions: spec_fn(NamespaceId) -> Seq<Action>,
) -> Seq<Action>
    decreases namespaces.len(),
{
    if namespaces.len() == 0 {
        Seq::empty()
    } else {
        in_turn(namespaces.drop_last(), actions) + actions(namespaces.last())
    }
}

/// Taking one document out takes out what comes of it.
proof fn lemma_in_turn_without(
    namespaces: Seq<NamespaceId>,
    actions: spec_fn(NamespaceId) -> Seq<Action>,
    i: int,
)
    requires
        0 <= i < namespaces.len(),
    ensures
        in_turn(namespaces, actions).to_multiset() == in_turn(
            namespaces.remove(i),
            actions,
        ).to_multiset().add(actions(namespaces[i]).to_multiset()),
    decreases namespaces.len(),
{
    let front = namespaces.drop_last();
    let last = namespaces.last();
    lemma_multiset_commutative(in_turn(front, actions), actions(last));
    if i == front.len() {
        assert(namespaces.remove(i) =~= front);
    } else {
        lemma_in_turn_without(front, actions, i);
        let rest = namespaces.remove(i);
        assert(rest.drop_last() =~= front.remove(i));
        assert(rest.last() == last);
        lemma_multiset_commutative(in_turn(front.remove(i), actions), actions(last));
        assert(in_turn(namespaces, actions).to_multiset() =~= in_turn(
            rest,
            actions,
        ).to_multiset().add(actions(namespaces[i]).to_multiset()));
    }
}

/// The order of the documents makes no difference to what comes of them.
proof fn lemma_in_turn_any_order(
    a: Seq<NamespaceId>,
    b: Seq<NamespaceId>,
    actions: spec_fn(NamespaceId) -> Seq<Action>,
)
    requires
        a.no_duplicates(),
        b.no_duplicates(),
        forall|namespace: NamespaceId| #[trigger]
            a.contains(namespace) <==> b.contains(namespace),
    ensures
        in_turn(a, actions).to_multiset() == in_turn(b, actions).to_multiset(),
    decreases a.len(),
{
    if a.len() == 0 {
        if b.len() > 0 {
            assert(b.contains(b[0]));
            assert(a.contains(b[0]));
        }
        assert(a =~= b);
    } else {
        let last = a.last();
        assert(a.contains(last));
        let i = b.index_of(last);
        assert(b[i] == last);
        let front = a.drop_last();
        let rest = b.remove(i);
        assert forall|namespace: NamespaceId| #[trigger]
            front.contains(namespace) <==> rest.contains(namespace) by {
            if front.contains(namespace) {
                let k = front.index_of(namespace);
                assert(a[k] == namespace);
                assert(a.contains(namespace));
                let m = b.index_of(namespace);
                assert(m != i);
                assert(rest[if m < i { m } else { m - 1 }] == namespace);
            }
            if rest.contains(namespace) {
                let k = rest.index_of(namespace);
                let m = if k < i { k } else { k + 1 };
                assert(b[m] == namespace);
                assert(b.contains(namespace));
                assert(a.contains(namespace));
                let n = a.index_of(namespace);
                assert(n != a.len() - 1);
                assert(front[n] == namespace);
            }
        }
        assert(rest.no_duplicates()) by {
            assert forall|k: int, m: int|
                0 <= k < rest.len() && 0 <= m < rest.len() && k != m implies rest[k]
                != rest[m] by {
                assert(rest[k] == b[if k < i { k } else { k + 1 }]);
                assert(rest[m] == b[if m < i { m } else { m + 1 }]);
            }
        }
        lemma_in_turn_any_order(front, rest, actions);
        lemma_in_turn_without(b, actions, i);
        lemma_multiset_commutative(in_turn(front, actions), actions(last));
    }
}

proof fn lemma_all_in_turn(states: States, namespaces: Seq<NamespaceId>, hash: ContentHash)
    ensures
        content_ready_for_all(states, namespaces, hash) == in_turn(
            namespaces,
            |namespace: NamespaceId| content_ready_actions(states, namespace, hash),
        ),
    decreases namespaces.len(),
{
    if namespaces.len() > 0 {
        lemma_all_in_turn(states, namespaces.drop_last(), hash);
    }
}

proof fn lemma_mapped_in_turn(namespaces: Seq<NamespaceId>)
    ensures
        namespaces.map_values(
            |namespace: NamespaceId|
                Action::Emit { namespace, event: Event::PendingContentReady },
        ) == in_turn(
            namespaces,
            |namespace: NamespaceId|
                seq![Action::Emit { namespace, event: Event::PendingContentReady }],
        ),
    decreases namespaces.len(),
{
    let told = |namespace: NamespaceId|
        Action::Emit { namespace, event: Event::PendingContentReady };
    let one = |namespace: NamespaceId|
        seq![Action::Emit { namespace, event: Event::PendingContentReady }];
    if namespaces.len() > 0 {
        let front = namespaces.drop_last();
        lemma_mapped_in_turn(front);
        assert(namespaces.map_values(told) =~= front.map_values(told) + one(namespaces.last()));
    }
    assert(namespaces.map_values(told) =~= in_turn(namespaces, one));
}

/// The documents that waited for a download may be gone through in any order: two ends of one
/// download from the same state leave the same engine, and the same is told of each document. The
/// content is not waited for any longer, and other content is waited for as before.
pub proof fn the_end_of_a_download_does_not_depend_on_order(
    before: LiveModel,
    hash: ContentHash,
    success: bool,
    after: LiveModel,
    actions: Seq<Action>,
    other_after: LiveModel,
    other_actions: Seq<Action>,
)
    requires
        download_end_taken(before, hash, success, after, actions),
        download_end_taken(before, hash, success, other_after, other_actions),
    ensures
        after == other_after,
        actions.to_multiset() == other_actions.to_multiset(),
        !has_hash(after.queued, hash),
        forall|other: ContentHash, namespace: NamespaceId|
            other != hash ==> (#[trigger] after.queued.contains((other, namespace))
                <==> before.queued.contains((other, namespace))),
{
    let a = choose|waiting: Seq<NamespaceId>|
        {
            &&& #[trigger] enumerates(waiting, namespaces_of(before.queued, hash))
            &&& (after, actions) == download_ended(before, hash, success, waiting)
        };
    let b = choose|waiting: Seq<NamespaceId>|
        {
            &&& #[trigger] enumerates(waiting, namespaces_of(before.queued, hash))
            &&& (other_after, other_actions) == download_ended(before, hash, success, waiting)
        };
    assert forall|namespace: NamespaceId| #[trigger]
        a.contains(namespace) <==> b.contains(namespace) by {
        assert(a.to_set().contains(namespace) == b.to_set().contains(namespace));
    }
    let is_last = |namespace: NamespaceId| is_last_hash(before.queued, hash, namespace);
    let is_due = |namespace: NamespaceId| ready_due(before.states, namespace);
    let (a_done, b_done) = (a.filter(is_last), b.filter(is_last));
    let (a_due, b_due) = (a_done.filter(is_due), b_done.filter(is_due));
    lemma_filter_distinct(a, is_last);
    lemma_filter_distinct(b, is_last);
    lemma_filter_distinct(a_done, is_due);
    lemma_filter_distinct(b_done, is_due);
    assert(all_ready_noted(before.states, a_done) =~= all_ready_noted(before.states, b_done));

    let announced = |namespace: NamespaceId|
        content_ready_actions(before.states, namespace, hash);
    lemma_all_in_turn(before.states, a, hash);
    lemma_all_in_turn(before.states, b, hash);
    lemma_in_turn_any_order(a, b, announced);
    let told = |namespace: NamespaceId|
        seq![Action::Emit { namespace, event: Event::PendingContentReady }];
    lemma_mapped_in_turn(a_due);
    lemma_mapped_in_turn(b_due);
    lemma_in_turn_any_order(a_due, b_due, told);
    lemma_multiset_commutative(
        content_ready_for_all(before.states, a, hash),
        ready_actions(before.states, a_done),
    );
    lemma_multiset_commutative(
        content_ready_for_all(before.states, b, hash),
        ready_actions(before.states, b_done),
    );
}

} // verus!

//! What becomes of content, once it is known how much of it is stored here, and once a download of
//! it has ended.

use n0_future::time::SystemTime;
use vstd::prelude::*;
use vstd::seq_lib::lemma_multiset_commutative;

use crate::hashes::{is_last_hash, lemma_filter_distinct, namespaces_of};
use crate::ids::{ContentHash, NamespaceId, PublicKey};
use crate::laws::effects::{
    any_content, differ_in_one_sync, if_due, is_free, stored_due, stored_resync, stored_sync,
};
use crate::live::{
    Action, AfterFlush, DownloadCandidate, DownloadEnd, HashGroup, Input, Next, StatusQuery, Step,
};
use crate::messages::{BlobStatus, Event, Op};
use crate::model::{
    announces, broadcast_actions, content_ready_actions, content_ready_for_all, download_ended,
    eligible_namespaces, enumerates, group_settled, groups_settled, input_taken, is_eligible,
    namespaces_in, providers_in, ready_actions, settled_count, stored_actions, LiveModel,
};
use crate::state::{ready_due, Origin, States, SyncReason, SyncState};

verus! {

/// How often the action is among the actions.
pub open spec fn how_often(actions: Seq<Action>, action: Action) -> nat {
    actions.to_multiset().count(action)
}

/// Subscribers to the document are told that the content is available.
pub open spec fn tell(namespace: NamespaceId, hash: ContentHash) -> Action {
    Action::Emit { namespace, event: Event::ContentReady { hash } }
}

/// The neighbors of the document are told that the content is available.
pub open spec fn spread(namespace: NamespaceId, hash: ContentHash) -> Action {
    Action::BroadcastNeighbors { namespace, op: Op::ContentReady(hash) }
}

/// The action is about the content.
pub open spec fn is_about(action: Action, hash: ContentHash) -> bool {
    ||| action matches Action::Download { hash: other, .. } && other == hash
    ||| exists|namespace: NamespaceId| action == #[trigger] tell(namespace, hash)
    ||| exists|namespace: NamespaceId| action == #[trigger] spread(namespace, hash)
}

/// The action is about some content.
pub open spec fn is_about_some(action: Action) -> bool {
    exists|hash: ContentHash| #[trigger] is_about(action, hash)
}

/// Each of the actions is about some content.
pub open spec fn are_about_content(actions: Seq<Action>) -> bool {
    forall|k: int| 0 <= k < actions.len() ==> is_about_some(#[trigger] actions[k])
}

/// Some candidate is for the document.
pub open spec fn asks(candidates: Seq<DownloadCandidate>, namespace: NamespaceId) -> bool {
    exists|k: int|
        0 <= k < candidates.len() && (#[trigger] candidates[k]).namespace == namespace
}

/// Some candidate names the peer.
pub open spec fn offers(candidates: Seq<DownloadCandidate>, peer: PublicKey) -> bool {
    exists|k: int| 0 <= k < candidates.len() && (#[trigger] candidates[k]).node == peer
}

/// Some candidate for the document wants the content whether or not it is missing.
pub open spec fn insists(candidates: Seq<DownloadCandidate>, namespace: NamespaceId) -> bool {
    exists|k: int|
        {
            &&& 0 <= k < candidates.len()
            &&& (#[trigger] candidates[k]).namespace == namespace
            &&& !candidates[k].only_if_missing
        }
}

/// The content is wanted for the document: a candidate wants it in any case, or one asks for it and
/// it is missing there.
pub open spec fn wants(
    model: LiveModel,
    hash: ContentHash,
    candidates: Seq<DownloadCandidate>,
    namespace: NamespaceId,
) -> bool {
    ||| insists(candidates, namespace)
    ||| asks(candidates, namespace) && model.missing.contains((hash, namespace))
}

/// Some document wants the content.
pub open spec fn anybody_wants(
    model: LiveModel,
    hash: ContentHash,
    candidates: Seq<DownloadCandidate>,
) -> bool {
    exists|namespace: NamespaceId| #[trigger] wants(model, hash, candidates, namespace)
}

/// Some document waits for the content.
pub open spec fn anybody_waits(model: LiveModel, hash: ContentHash) -> bool {
    exists|namespace: NamespaceId| #[trigger] model.queued.contains((hash, namespace))
}

/// The candidates for the document, in order.
pub open spec fn own(
    candidates: Seq<DownloadCandidate>,
    namespace: NamespaceId,
) -> Seq<DownloadCandidate> {
    candidates.filter(|candidate: DownloadCandidate| candidate.namespace == namespace)
}

/// How often content that is stored here is announced to the document: once for each candidate that
/// wants it in any case, and once more if it is missing and the first candidate wants it only there.
pub open spec fn times_told(
    model: LiveModel,
    hash: ContentHash,
    candidates: Seq<DownloadCandidate>,
    namespace: NamespaceId,
) -> nat {
    let mine = own(candidates, namespace);
    mine.filter(|candidate: DownloadCandidate| !candidate.only_if_missing).len() + if mine.len() > 0
        && mine[0].only_if_missing && model.missing.contains((hash, namespace)) {
        1nat
    } else {
        0nat
    }
}

/// What becomes of one piece of content that was asked about.
///
/// If it is all stored here, it is missing no longer where it was asked for, and is announced where
/// it is wanted. If it is not, the peers that offer it are remembered. If it is being downloaded, it
/// is waited for wherever it was asked for. If it is not, and some document wants it, it is
/// downloaded, once, and waited for by the documents that want it. Where it is waited for anew it is
/// not missing. If nobody wants it, nothing else happens.
pub open spec fn content_is_settled(
    before: LiveModel,
    after: LiveModel,
    actions: Seq<Action>,
    hash: ContentHash,
    candidates: Seq<DownloadCandidate>,
    status: BlobStatus,
) -> bool {
    let stored = status is Complete;
    let waited_for = anybody_waits(before, hash);
    let started = !stored && !waited_for && anybody_wants(before, hash, candidates);
    &&& forall|namespace: NamespaceId| #[trigger]
        after.missing.contains((hash, namespace)) <==> {
            &&& before.missing.contains((hash, namespace))
            &&& (stored || waited_for) ==> !asks(candidates, namespace)
            &&& started ==> !wants(before, hash, candidates, namespace)
        }
    &&& forall|namespace: NamespaceId| #[trigger]
        after.queued.contains((hash, namespace)) <==> {
            ||| before.queued.contains((hash, namespace))
            ||| !stored && waited_for && asks(candidates, namespace)
            ||| started && wants(before, hash, candidates, namespace)
        }
    &&& forall|peer: PublicKey| #[trigger]
        after.providers.contains((hash, peer)) <==> before.providers.contains((hash, peer)) || (
        !stored && offers(candidates, peer))
    &&& forall|namespace: NamespaceId|
        #![trigger tell(namespace, hash)]
        how_often(actions, tell(namespace, hash)) == if stored {
            times_told(before, hash, candidates, namespace)
        } else {
            0
        }
    &&& forall|namespace: NamespaceId|
        #![trigger spread(namespace, hash)]
        how_often(actions, spread(namespace, hash)) == if stored && before.states.contains_key(
            namespace,
        ) {
            times_told(before, hash, candidates, namespace)
        } else {
            0
        }
    &&& forall|namespace: NamespaceId| #[trigger]
        how_often(actions, Action::Download { namespace, hash }) == if started && namespace
            == candidates[0].namespace {
            1nat
        } else {
            0nat
        }
}

/// Nothing becomes of the content.
pub open spec fn content_is_left_alone(
    before: LiveModel,
    after: LiveModel,
    actions: Seq<Action>,
    hash: ContentHash,
) -> bool {
    &&& forall|namespace: NamespaceId| #[trigger]
        after.missing.contains((hash, namespace)) <==> before.missing.contains((hash, namespace))
    &&& forall|namespace: NamespaceId| #[trigger]
        after.queued.contains((hash, namespace)) <==> before.queued.contains((hash, namespace))
    &&& forall|peer: PublicKey| #[trigger]
        after.providers.contains((hash, peer)) <==> before.providers.contains((hash, peer))
    &&& forall|action: Action| is_about(action, hash) ==> #[trigger] how_often(actions, action) == 0
}

proof fn lemma_how_often_sum(a: Seq<Action>, b: Seq<Action>, action: Action)
    ensures
        how_often(a + b, action) == how_often(a, action) + how_often(b, action),
{
    lemma_multiset_commutative(a, b);
}

proof fn lemma_how_often_one(one: Action, action: Action)
    ensures
        how_often(seq![one], action) == if one == action {
            1nat
        } else {
            0nat
        },
        how_often(Seq::<Action>::empty(), action) == 0,
{
    broadcast use vstd::seq_lib::group_to_multiset_ensures;

    let none = Seq::<Action>::empty();
    assert(none.to_multiset().len() == 0);
    assert(!none.contains(action));
    assert(seq![one] =~= none.push(one));
    assert(none.push(one).to_multiset() =~= none.to_multiset().insert(one));
}

proof fn lemma_announced(
    states: States,
    about: NamespaceId,
    content: ContentHash,
    action: Action,
)
    ensures
        how_often(content_ready_actions(states, about, content), action) == (if action == tell(
            about,
            content,
        ) {
            1nat
        } else {
            0nat
        }) + (if action == spread(about, content) && states.contains_key(about) {
            1nat
        } else {
            0nat
        }),
{
    let told = seq![tell(about, content)];
    let more = broadcast_actions(states, about, Op::ContentReady(content));
    lemma_how_often_sum(told, more, action);
    lemma_how_often_one(tell(about, content), action);
    lemma_how_often_one(spread(about, content), action);
}

/// What one more candidate adds to the candidates for a document.
proof fn lemma_own(candidates: Seq<DownloadCandidate>, namespace: NamespaceId)
    requires
        candidates.len() > 0,
    ensures
        own(candidates, namespace) == if candidates.last().namespace == namespace {
            own(candidates.drop_last(), namespace).push(candidates.last())
        } else {
            own(candidates.drop_last(), namespace)
        },
{
    reveal(Seq::filter);
}

proof fn lemma_own_some(candidates: Seq<DownloadCandidate>, namespace: NamespaceId)
    ensures
        own(candidates, namespace).len() > 0 <==> asks(candidates, namespace),
    decreases candidates.len(),
{
    if candidates.len() > 0 {
        let front = candidates.drop_last();
        lemma_own(candidates, namespace);
        lemma_own_some(front, namespace);
        if asks(front, namespace) {
            let k = choose|k: int|
                0 <= k < front.len() && (#[trigger] front[k]).namespace == namespace;
            assert(candidates[k].namespace == namespace);
        }
        if asks(candidates, namespace) && candidates.last().namespace != namespace {
            let k = choose|k: int|
                0 <= k < candidates.len() && (#[trigger] candidates[k]).namespace == namespace;
            assert(front[k].namespace == namespace);
        }
    } else {
        reveal(Seq::filter);
    }
}

proof fn lemma_stored_count(
    model: LiveModel,
    hash: ContentHash,
    candidates: Seq<DownloadCandidate>,
    namespace: NamespaceId,
)
    ensures
        how_often(stored_actions(model, hash, candidates), tell(namespace, hash)) == times_told(
            model,
            hash,
            candidates,
            namespace,
        ),
        how_often(stored_actions(model, hash, candidates), spread(namespace, hash))
            == if model.states.contains_key(namespace) {
            times_told(model, hash, candidates, namespace)
        } else {
            0
        },
    decreases candidates.len(),
{
    let plain = |candidate: DownloadCandidate| !candidate.only_if_missing;
    if candidates.len() == 0 {
        lemma_how_often_one(tell(namespace, hash), tell(namespace, hash));
        lemma_how_often_one(spread(namespace, hash), spread(namespace, hash));
        reveal(Seq::filter);
    } else {
        let front = candidates.drop_last();
        let last = candidates.last();
        let n = candidates.len() - 1;
        lemma_stored_count(model, hash, front, namespace);
        lemma_own(candidates, namespace);
        lemma_own_some(front, last.namespace);
        let done = stored_actions(model, hash, front);
        let told = announces(model.missing, hash, candidates, n);
        let more = if told {
            content_ready_actions(model.states, last.namespace, hash)
        } else {
            Seq::empty()
        };
        lemma_how_often_sum(done, more, tell(namespace, hash));
        lemma_how_often_sum(done, more, spread(namespace, hash));
        lemma_announced(model.states, last.namespace, hash, tell(namespace, hash));
        lemma_announced(model.states, last.namespace, hash, spread(namespace, hash));
        lemma_how_often_one(tell(namespace, hash), tell(namespace, hash));
        lemma_how_often_one(spread(namespace, hash), spread(namespace, hash));
        assert(candidates.take(n) =~= front);
        assert(namespaces_in(front).contains(last.namespace) <==> asks(front, last.namespace));
        let mine = own(front, namespace);
        if last.namespace == namespace {
            assert(mine.push(last).drop_last() =~= mine);
            assert(mine.push(last).filter(plain) == if plain(last) {
                mine.filter(plain).push(last)
            } else {
                mine.filter(plain)
            }) by {
                reveal(Seq::filter);
            }
            if mine.len() > 0 {
                assert(mine.push(last)[0] == mine[0]);
            }
        }
    }
}

/// Announcing stored content holds nothing but what tells of that content.
proof fn lemma_stored_only(
    model: LiveModel,
    hash: ContentHash,
    candidates: Seq<DownloadCandidate>,
    action: Action,
)
    requires
        forall|namespace: NamespaceId| action != #[trigger] tell(namespace, hash),
        forall|namespace: NamespaceId| action != #[trigger] spread(namespace, hash),
    ensures
        how_often(stored_actions(model, hash, candidates), action) == 0,
    decreases candidates.len(),
{
    lemma_how_often_one(action, action);
    if candidates.len() > 0 {
        let front = candidates.drop_last();
        let last = candidates.last();
        lemma_stored_only(model, hash, front, action);
        let done = stored_actions(model, hash, front);
        let more = content_ready_actions(model.states, last.namespace, hash);
        lemma_how_often_sum(done, more, action);
        lemma_how_often_sum(done, Seq::empty(), action);
        lemma_announced(model.states, last.namespace, hash, action);
        assert(action != tell(last.namespace, hash));
        assert(action != spread(last.namespace, hash));
    }
}

/// Nothing differs but what is known of content.
pub open spec fn same_but_for_content(a: LiveModel, b: LiveModel) -> bool {
    b == LiveModel { missing: b.missing, queued: b.queued, providers: b.providers, ..a }
}

pub(crate) proof fn lemma_group_content(
    model: LiveModel,
    hash: ContentHash,
    candidates: Seq<DownloadCandidate>,
    status: BlobStatus,
)
    ensures
        ({
            let (settled, actions) = group_settled(model, hash, candidates, status);
            &&& same_but_for_content(model, settled)
            &&& content_is_settled(model, settled, actions, hash, candidates, status)
            &&& forall|action: Action|
                !is_about(action, hash) ==> #[trigger] how_often(actions, action) == 0
        }),
{
    let (settled, actions) = group_settled(model, hash, candidates, status);
    let eligible = eligible_namespaces(model.missing, hash, candidates);
    assert forall|namespace: NamespaceId|
        eligible.contains(namespace) <==> #[trigger] wants(
            model,
            hash,
            candidates,
            namespace,
        ) by {
        if wants(model, hash, candidates, namespace) {
            let k = if insists(candidates, namespace) {
                choose|k: int|
                    {
                        &&& 0 <= k < candidates.len()
                        &&& (#[trigger] candidates[k]).namespace == namespace
                        &&& !candidates[k].only_if_missing
                    }
            } else {
                choose|k: int|
                    0 <= k < candidates.len() && (#[trigger] candidates[k]).namespace == namespace
            };
            assert(candidates[k].namespace == namespace);
        }
        if eligible.contains(namespace) {
            let k = choose|k: int|
                0 <= k < candidates.len() && (#[trigger] candidates[k]).namespace == namespace
                    && is_eligible(model.missing, hash, candidates[k]);
            assert(candidates[k].namespace == namespace);
        }
    }
    assert(anybody_wants(model, hash, candidates) <==> eligible != Set::<NamespaceId>::empty()) by {
        if !anybody_wants(model, hash, candidates) {
            assert forall|namespace: NamespaceId| !eligible.contains(namespace) by {
                assert(!wants(model, hash, candidates, namespace));
            }
            assert(eligible =~= Set::<NamespaceId>::empty());
        } else {
            let namespace = choose|namespace: NamespaceId| #[trigger]
                wants(model, hash, candidates, namespace);
            assert(eligible.contains(namespace));
        }
    }
    assert(forall|namespace: NamespaceId|
        namespaces_in(candidates).contains(namespace) <==> #[trigger] asks(candidates, namespace));
    assert(forall|peer: PublicKey|
        providers_in(hash, candidates).contains((hash, peer)) <==> #[trigger] offers(
            candidates,
            peer,
        ));
    assert forall|namespace: NamespaceId|
        #![trigger tell(namespace, hash)]
        how_often(actions, tell(namespace, hash)) == if status is Complete {
            times_told(model, hash, candidates, namespace)
        } else {
            0
        } by {
        lemma_stored_count(model, hash, candidates, namespace);
        lemma_how_often_one(
            Action::Download { namespace: candidates[0].namespace, hash },
            tell(namespace, hash),
        );
    }
    assert forall|namespace: NamespaceId|
        #![trigger spread(namespace, hash)]
        how_often(actions, spread(namespace, hash)) == if status is Complete
            && model.states.contains_key(namespace) {
            times_told(model, hash, candidates, namespace)
        } else {
            0
        } by {
        lemma_stored_count(model, hash, candidates, namespace);
        lemma_how_often_one(
            Action::Download { namespace: candidates[0].namespace, hash },
            spread(namespace, hash),
        );
    }
    let started = !(status is Complete) && !anybody_waits(model, hash) && anybody_wants(
        model,
        hash,
        candidates,
    );
    assert forall|namespace: NamespaceId| #[trigger]
        how_often(actions, Action::Download { namespace, hash }) == if started && namespace
            == candidates[0].namespace {
            1nat
        } else {
            0nat
        } by {
        let action = Action::Download { namespace, hash };
        lemma_stored_only(model, hash, candidates, action);
        lemma_how_often_one(
            Action::Download { namespace: candidates[0].namespace, hash },
            action,
        );
    }
    assert forall|action: Action| !is_about(action, hash) implies #[trigger] how_often(
        actions,
        action,
    ) == 0 by {
        lemma_stored_only(model, hash, candidates, action);
        lemma_how_often_one(
            Action::Download { namespace: candidates[0].namespace, hash },
            action,
        );
    }
}

/// An action is about one piece of content at most.
pub(crate) proof fn lemma_about_one(action: Action, a: ContentHash, b: ContentHash)
    requires
        is_about(action, a),
        is_about(action, b),
    ensures
        a == b,
{
}

/// Considering one hash leaves another alone.
proof fn lemma_group_leaves_others(
    model: LiveModel,
    group: HashGroup,
    status: BlobStatus,
    hash: ContentHash,
)
    requires
        group.hash != hash,
    ensures
        ({
            let (settled, actions) = group_settled(model, group.hash, group.candidates@, status);
            content_is_left_alone(model, settled, actions, hash)
        }),
{
    let (settled, actions) = group_settled(model, group.hash, group.candidates@, status);
    lemma_group_content(model, group.hash, group.candidates@, status);
    assert forall|action: Action| is_about(action, hash) implies #[trigger] how_often(
        actions,
        action,
    ) == 0 by {
        if is_about(action, group.hash) {
            lemma_about_one(action, group.hash, hash);
        }
    }
}

proof fn lemma_groups_leave_alone(
    model: LiveModel,
    groups: Seq<HashGroup>,
    statuses: Seq<BlobStatus>,
    n: nat,
    hash: ContentHash,
)
    requires
        n <= groups.len(),
        forall|k: int| 0 <= k < n ==> (#[trigger] groups[k]).hash != hash,
    ensures
        ({
            let (settled, actions) = groups_settled(model, groups, statuses, n);
            content_is_left_alone(model, settled, actions, hash)
        }),
    decreases n,
{
    let (settled, actions) = groups_settled(model, groups, statuses, n);
    if n > 0 {
        lemma_groups_leave_alone(model, groups, statuses, (n - 1) as nat, hash);
        let (mid, done) = groups_settled(model, groups, statuses, (n - 1) as nat);
        let group = groups[n - 1];
        lemma_group_leaves_others(mid, group, statuses[n - 1], hash);
        let more = group_settled(mid, group.hash, group.candidates@, statuses[n - 1]).1;
        assert forall|action: Action| is_about(action, hash) implies #[trigger] how_often(
            actions,
            action,
        ) == 0 by {
            lemma_how_often_sum(done, more, action);
            assert(how_often(done, action) == 0 && how_often(more, action) == 0);
        }
    } else {
        assert forall|action: Action| is_about(action, hash) implies #[trigger] how_often(
            actions,
            action,
        ) == 0 by {
            lemma_how_often_one(action, action);
        }
    }
}

/// What is settled of one hash depends on nothing but what was known of that hash.
proof fn lemma_settled_alike(
    model: LiveModel,
    mid: LiveModel,
    settled: LiveModel,
    done: Seq<Action>,
    more: Seq<Action>,
    hash: ContentHash,
    candidates: Seq<DownloadCandidate>,
    status: BlobStatus,
)
    requires
        content_is_left_alone(model, mid, done, hash),
        mid.states == model.states,
        content_is_settled(mid, settled, more, hash, candidates, status),
    ensures
        content_is_settled(model, settled, done + more, hash, candidates, status),
{
    assert forall|namespace: NamespaceId| #[trigger]
        wants(model, hash, candidates, namespace) == wants(mid, hash, candidates, namespace) by {
        assert(mid.missing.contains((hash, namespace)) == model.missing.contains(
            (hash, namespace),
        ));
    }
    assert(anybody_wants(model, hash, candidates) == anybody_wants(mid, hash, candidates)) by {
        if anybody_wants(model, hash, candidates) {
            let n = choose|n: NamespaceId| #[trigger] wants(model, hash, candidates, n);
            assert(wants(mid, hash, candidates, n));
        }
        if anybody_wants(mid, hash, candidates) {
            let n = choose|n: NamespaceId| #[trigger] wants(mid, hash, candidates, n);
            assert(wants(model, hash, candidates, n));
        }
    }
    assert(anybody_waits(model, hash) == anybody_waits(mid, hash)) by {
        if anybody_waits(model, hash) {
            let n = choose|n: NamespaceId| #[trigger] model.queued.contains((hash, n));
            assert(mid.queued.contains((hash, n)));
        }
        if anybody_waits(mid, hash) {
            let n = choose|n: NamespaceId| #[trigger] mid.queued.contains((hash, n));
            assert(model.queued.contains((hash, n)));
        }
    }
    assert forall|namespace: NamespaceId|
        #![trigger tell(namespace, hash)]
        how_often(done + more, tell(namespace, hash)) == how_often(
            more,
            tell(namespace, hash),
        ) && times_told(model, hash, candidates, namespace) == times_told(
            mid,
            hash,
            candidates,
            namespace,
        ) by {
        let action = tell(namespace, hash);
        assert(is_about(action, hash));
        lemma_how_often_sum(done, more, action);
        assert(how_often(done, action) == 0);
        assert(mid.missing.contains((hash, namespace)) == model.missing.contains(
            (hash, namespace),
        ));
    }
    assert forall|namespace: NamespaceId|
        #![trigger spread(namespace, hash)]
        how_often(done + more, spread(namespace, hash)) == how_often(
            more,
            spread(namespace, hash),
        ) && times_told(model, hash, candidates, namespace) == times_told(
            mid,
            hash,
            candidates,
            namespace,
        ) by {
        let action = spread(namespace, hash);
        assert(is_about(action, hash));
        lemma_how_often_sum(done, more, action);
        assert(how_often(done, action) == 0);
        assert(mid.missing.contains((hash, namespace)) == model.missing.contains(
            (hash, namespace),
        ));
    }
    assert forall|namespace: NamespaceId| #[trigger]
        how_often(done + more, Action::Download { namespace, hash }) == how_often(
            more,
            Action::Download { namespace, hash },
        ) by {
        let action = Action::Download { namespace, hash };
        assert(is_about(action, hash));
        lemma_how_often_sum(done, more, action);
        assert(how_often(done, action) == 0);
    }
}

/// What is left alone later stays settled.
proof fn lemma_settled_before(
    model: LiveModel,
    mid: LiveModel,
    settled: LiveModel,
    done: Seq<Action>,
    more: Seq<Action>,
    hash: ContentHash,
    candidates: Seq<DownloadCandidate>,
    status: BlobStatus,
)
    requires
        content_is_settled(model, mid, done, hash, candidates, status),
        content_is_left_alone(mid, settled, more, hash),
    ensures
        content_is_settled(model, settled, done + more, hash, candidates, status),
{
    assert forall|namespace: NamespaceId|
        #![trigger tell(namespace, hash)]
        how_often(done + more, tell(namespace, hash)) == how_often(
            done,
            tell(namespace, hash),
        ) by {
        let action = tell(namespace, hash);
        assert(is_about(action, hash));
        lemma_how_often_sum(done, more, action);
        assert(how_often(more, action) == 0);
    }
    assert forall|namespace: NamespaceId|
        #![trigger spread(namespace, hash)]
        how_often(done + more, spread(namespace, hash)) == how_often(
            done,
            spread(namespace, hash),
        ) by {
        let action = spread(namespace, hash);
        assert(is_about(action, hash));
        lemma_how_often_sum(done, more, action);
        assert(how_often(more, action) == 0);
    }
    assert forall|namespace: NamespaceId| #[trigger]
        how_often(done + more, Action::Download { namespace, hash }) == how_often(
            done,
            Action::Download { namespace, hash },
        ) by {
        let action = Action::Download { namespace, hash };
        assert(is_about(action, hash));
        lemma_how_often_sum(done, more, action);
        assert(how_often(more, action) == 0);
    }
}

proof fn lemma_groups_same_but_for_content(
    model: LiveModel,
    groups: Seq<HashGroup>,
    statuses: Seq<BlobStatus>,
    n: nat,
)
    ensures
        same_but_for_content(model, groups_settled(model, groups, statuses, n).0),
    decreases n,
{
    if n > 0 {
        lemma_groups_same_but_for_content(model, groups, statuses, (n - 1) as nat);
    }
}

proof fn lemma_groups_settle(
    model: LiveModel,
    groups: Seq<HashGroup>,
    statuses: Seq<BlobStatus>,
    n: nat,
    i: int,
)
    requires
        0 <= i < n <= groups.len(),
        forall|j: int, k: int|
            0 <= j < k < groups.len() ==> (#[trigger] groups[j]).hash != (#[trigger] groups[k]).hash,
    ensures
        ({
            let (settled, actions) = groups_settled(model, groups, statuses, n);
            content_is_settled(
                model,
                settled,
                actions,
                groups[i].hash,
                groups[i].candidates@,
                statuses[i],
            )
        }),
    decreases n,
{
    let (mid, done) = groups_settled(model, groups, statuses, (n - 1) as nat);
    let group = groups[n - 1];
    let (settled, more) = group_settled(mid, group.hash, group.candidates@, statuses[n - 1]);
    let hash = groups[i].hash;
    if i == n - 1 {
        lemma_groups_leave_alone(model, groups, statuses, (n - 1) as nat, hash);
        lemma_groups_same_but_for_content(model, groups, statuses, (n - 1) as nat);
        lemma_group_content(mid, hash, group.candidates@, statuses[i]);
        lemma_settled_alike(
            model,
            mid,
            settled,
            done,
            more,
            hash,
            group.candidates@,
            statuses[i],
        );
    } else {
        lemma_groups_settle(model, groups, statuses, (n - 1) as nat, i);
        assert(groups[i].hash != groups[n - 1].hash);
        lemma_group_leaves_others(mid, group, statuses[n - 1], hash);
        lemma_settled_before(
            model,
            mid,
            settled,
            done,
            more,
            hash,
            groups[i].candidates@,
            statuses[i],
        );
    }
}

/// What comes of the purpose of a question, once the content has been considered: where it was asked
/// at the end of a sync, that is told or noted, and the peer is dialed again if that is due.
pub open spec fn purpose_actions(
    purpose: AfterFlush,
    before: LiveModel,
    after: LiveModel,
) -> Seq<Action> {
    match purpose {
        AfterFlush::Nothing => Seq::empty(),
        AfterFlush::FinishSync { namespace, peer, resync } => if_due(
            !any_content(after.queued, namespace),
            Action::Emit { namespace, event: Event::PendingContentReady },
        ) + if_due(
            resync && is_free(before.states, namespace, peer),
            Action::Connect { namespace, peer, reason: SyncReason::Resync },
        ),
    }
}

/// How the states change by the purpose of a question.
pub open spec fn purpose_served(
    purpose: AfterFlush,
    before: LiveModel,
    after: LiveModel,
    now: SystemTime,
) -> bool {
    match purpose {
        AfterFlush::Nothing => after.states == before.states,
        AfterFlush::FinishSync { namespace, peer, resync } => {
            let dialed = resync && is_free(before.states, namespace, peer);
            &&& differ_in_one_sync(before.states, after.states, namespace, peer)
            &&& stored_due(after.states, namespace) == (before.states.contains_key(namespace)
                && any_content(after.queued, namespace))
            &&& stored_sync(after.states, namespace, peer) == if dialed {
                SyncState::Running {
                    start: now,
                    origin: Origin::Connect(SyncReason::Resync),
                }
            } else {
                stored_sync(before.states, namespace, peer)
            }
            &&& stored_resync(after.states, namespace, peer) == (!dialed && stored_resync(
                before.states,
                namespace,
                peer,
            ))
        },
    }
}

/// When it is known how much content is stored here, each piece of content that was asked about and
/// whose status is known is settled by that status, and all other content is left alone.
pub proof fn each_content_is_settled_by_its_own_status(
    before: LiveModel,
    query: StatusQuery,
    statuses: Vec<BlobStatus>,
    now: SystemTime,
    after: LiveModel,
    step: Step,
)
    requires
        input_taken(before, Input::Statuses { query, statuses }, now, after, step),
        forall|j: int, k: int|
            0 <= j < k < query.groups().len() ==> (#[trigger] query.groups()[j]).hash != (
            #[trigger] query.groups()[k]).hash,
    ensures
        forall|i: int|
            0 <= i < query.groups().len() && i < statuses@.len() ==> content_is_settled(
                before,
                after,
                step.actions@,
                (#[trigger] query.groups()[i]).hash,
                query.groups()[i].candidates@,
                statuses@[i],
            ),
        forall|hash: ContentHash|
            (forall|i: int|
                0 <= i < query.groups().len() && i < statuses@.len() ==> query.groups()[i].hash
                    != hash) ==> #[trigger] content_is_left_alone(before, after, step.actions@, hash),
        exists|head: Seq<Action>|
            {
                &&& #[trigger] are_about_content(head)
                &&& step.actions@ == head + purpose_actions(query.purpose(), before, after)
            },
        purpose_served(query.purpose(), before, after, now),
        after.me == before.me,
        after.pending == before.pending,
        after.subscribers == before.subscribers,
        step.next == Next::Nothing,
{
    let groups = query.groups();
    let n = settled_count(groups, statuses@);
    let (settled, head) = groups_settled(before, groups, statuses@, n);
    let tail = purpose_actions(query.purpose(), before, after);
    lemma_groups_same_but_for_content(before, groups, statuses@, n);
    assert(step.actions@ =~= head + tail);
    assert forall|hash: ContentHash| #[trigger]
        content_is_left_alone(settled, after, tail, hash) by {
        assert forall|action: Action| is_about(action, hash) implies #[trigger] how_often(
            tail,
            action,
        ) == 0 by {
            lemma_tail(query.purpose(), before, after, action, hash);
        }
    }
    assert forall|i: int| 0 <= i < groups.len() && i < statuses@.len() implies content_is_settled(
        before,
        after,
        step.actions@,
        (#[trigger] groups[i]).hash,
        groups[i].candidates@,
        statuses@[i],
    ) by {
        lemma_groups_settle(before, groups, statuses@, n, i);
        assert(content_is_left_alone(settled, after, tail, groups[i].hash));
        lemma_settled_before(
            before,
            settled,
            after,
            head,
            tail,
            groups[i].hash,
            groups[i].candidates@,
            statuses@[i],
        );
    }
    assert forall|hash: ContentHash|
        (forall|i: int|
            0 <= i < groups.len() && i < statuses@.len() ==> groups[i].hash
                != hash) implies #[trigger]
        content_is_left_alone(before, after, step.actions@, hash) by {
        lemma_groups_leave_alone(before, groups, statuses@, n, hash);
        assert(content_is_left_alone(settled, after, tail, hash));
        assert forall|action: Action| is_about(action, hash) implies #[trigger] how_often(
            step.actions@,
            action,
        ) == 0 by {
            lemma_how_often_sum(head, tail, action);
            assert(how_often(head, action) == 0 && how_often(tail, action) == 0);
        }
    }
    assert(are_about_content(head)) by {
        assert forall|k: int| 0 <= k < head.len() implies is_about_some(#[trigger] head[k]) by {
            lemma_head_about(before, groups, statuses@, n, k);
        }
    }
}

/// What comes of the purpose of a question is about no content.
proof fn lemma_tail(
    purpose: AfterFlush,
    before: LiveModel,
    after: LiveModel,
    action: Action,
    hash: ContentHash,
)
    requires
        is_about(action, hash),
    ensures
        how_often(purpose_actions(purpose, before, after), action) == 0,
{
    lemma_how_often_one(action, action);
    if let AfterFlush::FinishSync { namespace, peer, resync } = purpose {
        let ready = Action::Emit { namespace, event: Event::PendingContentReady };
        let dial = Action::Connect { namespace, peer, reason: SyncReason::Resync };
        lemma_how_often_one(ready, action);
        lemma_how_often_one(dial, action);
        lemma_how_often_sum(
            if_due(!any_content(after.queued, namespace), ready),
            if_due(resync && is_free(before.states, namespace, peer), dial),
            action,
        );
    }
}

proof fn lemma_head_about(
    model: LiveModel,
    groups: Seq<HashGroup>,
    statuses: Seq<BlobStatus>,
    n: nat,
    k: int,
)
    requires
        0 <= k < groups_settled(model, groups, statuses, n).1.len(),
    ensures
        is_about_some(groups_settled(model, groups, statuses, n).1[k]),
    decreases n,
{
    let (mid, done) = groups_settled(model, groups, statuses, (n - 1) as nat);
    let group = groups[n - 1];
    let more = group_settled(mid, group.hash, group.candidates@, statuses[n - 1]).1;
    if k < done.len() {
        lemma_head_about(model, groups, statuses, (n - 1) as nat, k);
        assert((done + more)[k] == done[k]);
    } else {
        let action = more[k - done.len()];
        lemma_group_content(mid, group.hash, group.candidates@, statuses[n - 1]);
        assert(how_often(more, action) > 0) by {
            broadcast use vstd::seq_lib::group_to_multiset_ensures;

            assert(more.contains(action));
        }
        assert(is_about((done + more)[k], group.hash));
    }
}

/// Subscribers to the document are told that nothing is pending.
pub open spec fn tell_ready(namespace: NamespaceId) -> Action {
    Action::Emit { namespace, event: Event::PendingContentReady }
}

/// The document waits for the content, and for no other.
pub open spec fn waits_only_for(
    model: LiveModel,
    namespace: NamespaceId,
    hash: ContentHash,
) -> bool {
    &&& model.queued.contains((hash, namespace))
    &&& forall|other: ContentHash|
        other != hash ==> !#[trigger] model.queued.contains((other, namespace))
}

/// How often content is announced to documents that are gone through one after the other.
proof fn lemma_all_announced(
    states: States,
    namespaces: Seq<NamespaceId>,
    hash: ContentHash,
    action: Action,
)
    requires
        namespaces.no_duplicates(),
    ensures
        forall|namespace: NamespaceId|
            action == #[trigger] tell(namespace, hash) ==> how_often(
                content_ready_for_all(states, namespaces, hash),
                action,
            ) == if namespaces.contains(namespace) {
                1nat
            } else {
                0nat
            },
        forall|namespace: NamespaceId|
            action == #[trigger] spread(namespace, hash) ==> how_often(
                content_ready_for_all(states, namespaces, hash),
                action,
            ) == if namespaces.contains(namespace) && states.contains_key(namespace) {
                1nat
            } else {
                0nat
            },
        !is_about(action, hash) ==> how_often(
            content_ready_for_all(states, namespaces, hash),
            action,
        ) == 0,
        action is Download ==> how_often(content_ready_for_all(states, namespaces, hash), action)
            == 0,
    decreases namespaces.len(),
{
    lemma_how_often_one(action, action);
    if namespaces.len() > 0 {
        let front = namespaces.drop_last();
        let last = namespaces.last();
        assert(front.no_duplicates());
        lemma_all_announced(states, front, hash, action);
        let done = content_ready_for_all(states, front, hash);
        let more = content_ready_actions(states, last, hash);
        lemma_how_often_sum(done, more, action);
        lemma_announced(states, last, hash, action);
        assert(is_about(tell(last, hash), hash));
        assert(is_about(spread(last, hash), hash));
        assert forall|namespace: NamespaceId| #[trigger]
            namespaces.contains(namespace) <==> front.contains(namespace) || namespace == last by {
            if namespaces.contains(namespace) {
                let k = namespaces.index_of(namespace);
                if k < front.len() {
                    assert(front[k] == namespace);
                }
            }
            if front.contains(namespace) {
                assert(namespaces[front.index_of(namespace)] == namespace);
            }
            if namespace == last {
                assert(namespaces[front.len() as int] == last);
            }
        }
        assert(!front.contains(last)) by {
            if front.contains(last) {
                let k = front.index_of(last);
                assert(namespaces[k] == namespaces[front.len() as int]);
            }
        }
    } else {
        assert(forall|namespace: NamespaceId| !namespaces.contains(namespace));
    }
}

/// How often it is told that nothing is pending, of documents of which each is told once.
proof fn lemma_ready_count(due: Seq<NamespaceId>, action: Action)
    requires
        due.no_duplicates(),
    ensures
        ({
            let told = due.map_values(
                |namespace: NamespaceId|
                    Action::Emit { namespace, event: Event::PendingContentReady },
            );
            how_often(told, action) == if (exists|namespace: NamespaceId|
                action == #[trigger] tell_ready(namespace) && due.contains(namespace)) {
                1nat
            } else {
                0nat
            }
        }),
    decreases due.len(),
{
    let say = |namespace: NamespaceId|
        Action::Emit { namespace, event: Event::PendingContentReady };
    lemma_how_often_one(action, action);
    if due.len() > 0 {
        let front = due.drop_last();
        let last = due.last();
        lemma_ready_count(front, action);
        assert(due.map_values(say) =~= front.map_values(say) + seq![tell_ready(last)]);
        lemma_how_often_sum(front.map_values(say), seq![tell_ready(last)], action);
        lemma_how_often_one(tell_ready(last), action);
        assert(!front.contains(last)) by {
            if front.contains(last) {
                let k = front.index_of(last);
                assert(due[k] == due[front.len() as int]);
            }
        }
        if exists|n: NamespaceId| action == #[trigger] tell_ready(n) && front.contains(n) {
            let n = choose|n: NamespaceId| action == #[trigger] tell_ready(n) && front.contains(n);
            assert(due[front.index_of(n)] == n);
            assert(due.contains(n));
            assert(n != last);
        }
        if exists|n: NamespaceId| action == #[trigger] tell_ready(n) && due.contains(n) {
            let n = choose|n: NamespaceId| action == #[trigger] tell_ready(n) && due.contains(n);
            let k = due.index_of(n);
            if k < front.len() {
                assert(front[k] == n);
                assert(front.contains(n));
            } else {
                assert(n == last);
            }
        }
        if action == tell_ready(last) {
            assert(due[front.len() as int] == last);
            assert(due.contains(last));
        }
    } else {
        assert(due.map_values(say) =~= Seq::<Action>::empty());
        assert(forall|n: NamespaceId| !due.contains(n));
    }
}

/// What the end of a download does.
///
/// The content is waited for no longer. If it is here, it is missing no longer where it was waited
/// for, and the subscribers and, of a document that is synced, the neighbors of each document that
/// waited for it are told, once. If it is not, it is missing there, and nobody is told of it. Each
/// document that waited for nothing else is told that nothing is pending, once, if that is due,
/// however the download ended, and behind all else. Other content is left as it is, and so are syncs.
pub proof fn the_end_of_a_download_is_taken(
    before: LiveModel,
    hash: ContentHash,
    success: bool,
    now: SystemTime,
    after: LiveModel,
    step: Step,
)
    requires
        input_taken(
            before,
            Input::Download(Some(DownloadEnd { hash, success })),
            now,
            after,
            step,
        ),
    ensures
        step.next == Next::Nothing,
        after == (LiveModel {
            states: after.states,
            missing: after.missing,
            queued: after.queued,
            ..before
        }),
        forall|other: ContentHash, namespace: NamespaceId| #[trigger]
            after.queued.contains((other, namespace)) <==> other != hash && before.queued.contains(
                (other, namespace),
            ),
        forall|other: ContentHash, namespace: NamespaceId| #[trigger]
            after.missing.contains((other, namespace)) <==> if other == hash
                && before.queued.contains((hash, namespace)) {
                !success
            } else {
                before.missing.contains((other, namespace))
            },
        forall|namespace: NamespaceId|
            #![trigger tell(namespace, hash)]
            how_often(step.actions@, tell(namespace, hash)) == if success
                && before.queued.contains((hash, namespace)) {
                1nat
            } else {
                0nat
            },
        forall|namespace: NamespaceId|
            #![trigger spread(namespace, hash)]
            how_often(step.actions@, spread(namespace, hash)) == if success
                && before.queued.contains((hash, namespace)) && before.states.contains_key(
                namespace,
            ) {
                1nat
            } else {
                0nat
            },
        forall|namespace: NamespaceId|
            #![trigger tell_ready(namespace)]
            how_often(step.actions@, tell_ready(namespace)) == if stored_due(
                before.states,
                namespace,
            ) && waits_only_for(before, namespace, hash) {
                1nat
            } else {
                0nat
            },
        forall|action: Action|
            (action is Download || !is_about(action, hash)) && (forall|namespace: NamespaceId|
                action != #[trigger] tell_ready(namespace)) ==> #[trigger] how_often(
                step.actions@,
                action,
            ) == 0,
        forall|k: int, m: int|
            0 <= k < m < step.actions@.len() && ready_said(#[trigger] step.actions@[k])
                ==> ready_said(#[trigger] step.actions@[m]),
        forall|namespace: NamespaceId| #[trigger]
            after.states.contains_key(namespace) <==> before.states.contains_key(namespace),
        forall|namespace: NamespaceId| #[trigger]
            stored_due(after.states, namespace) == (stored_due(before.states, namespace)
                && !waits_only_for(before, namespace, hash)),
        forall|namespace: NamespaceId, peer: PublicKey| #[trigger]
            stored_sync(after.states, namespace, peer) == stored_sync(
                before.states,
                namespace,
                peer,
            ),
        forall|namespace: NamespaceId, peer: PublicKey| #[trigger]
            stored_resync(after.states, namespace, peer) == stored_resync(
                before.states,
                namespace,
                peer,
            ),
{
    let actions = step.actions@;
    let waiting = choose|waiting: Seq<NamespaceId>|
        {
            &&& #[trigger] enumerates(waiting, namespaces_of(before.queued, hash))
            &&& (after, actions) == download_ended(before, hash, success, waiting)
        };
    let is_last = |namespace: NamespaceId| is_last_hash(before.queued, hash, namespace);
    let is_due = |namespace: NamespaceId| ready_due(before.states, namespace);
    let completed = waiting.filter(is_last);
    let due = completed.filter(is_due);
    lemma_filter_distinct(waiting, is_last);
    lemma_filter_distinct(completed, is_due);
    let announced = if success {
        content_ready_for_all(before.states, waiting, hash)
    } else {
        Seq::empty()
    };
    let ready = ready_actions(before.states, completed);
    assert(actions =~= announced + ready);
    assert forall|namespace: NamespaceId| #[trigger]
        waiting.contains(namespace) <==> before.queued.contains((hash, namespace)) by {
        assert(waiting.to_set().contains(namespace) <==> namespaces_of(
            before.queued,
            hash,
        ).contains(namespace));
    }
    assert forall|namespace: NamespaceId| #[trigger]
        is_last_hash(before.queued, hash, namespace) <==> waits_only_for(
            before,
            namespace,
            hash,
        ) by {}
    assert forall|namespace: NamespaceId| #[trigger]
        due.contains(namespace) <==> stored_due(before.states, namespace) && waits_only_for(
            before,
            namespace,
            hash,
        ) by {
        assert(completed.contains(namespace) <==> waiting.contains(namespace) && is_last_hash(
            before.queued,
            hash,
            namespace,
        ));
    }
    assert forall|action: Action| #[trigger]
        how_often(actions, action) == how_often(announced, action) + how_often(ready, action) by {
        lemma_how_often_sum(announced, ready, action);
    }
    assert forall|namespace: NamespaceId|
        #![trigger tell(namespace, hash)]
        how_often(actions, tell(namespace, hash)) == if success && before.queued.contains(
            (hash, namespace),
        ) {
            1nat
        } else {
            0nat
        } by {
        let action = tell(namespace, hash);
        lemma_all_announced(before.states, waiting, hash, action);
        lemma_how_often_one(action, action);
        lemma_ready_count(due, action);
    }
    assert forall|namespace: NamespaceId|
        #![trigger spread(namespace, hash)]
        how_often(actions, spread(namespace, hash)) == if success && before.queued.contains(
            (hash, namespace),
        ) && before.states.contains_key(namespace) {
            1nat
        } else {
            0nat
        } by {
        let action = spread(namespace, hash);
        lemma_all_announced(before.states, waiting, hash, action);
        lemma_how_often_one(action, action);
        lemma_ready_count(due, action);
    }
    assert forall|namespace: NamespaceId|
        #![trigger tell_ready(namespace)]
        how_often(actions, tell_ready(namespace)) == if stored_due(before.states, namespace)
            && waits_only_for(before, namespace, hash) {
            1nat
        } else {
            0nat
        } by {
        let action = tell_ready(namespace);
        assert(!is_about(action, hash));
        lemma_all_announced(before.states, waiting, hash, action);
        lemma_how_often_one(action, action);
        lemma_ready_count(due, action);
        assert(due.contains(namespace) <==> stored_due(before.states, namespace)
            && waits_only_for(before, namespace, hash));
    }
    assert forall|action: Action|
        (action is Download || !is_about(action, hash)) && (forall|namespace: NamespaceId|
            action != #[trigger] tell_ready(namespace)) implies #[trigger] how_often(
        actions,
        action,
    ) == 0 by {
        lemma_all_announced(before.states, waiting, hash, action);
        lemma_how_often_one(action, action);
        lemma_ready_count(due, action);
    }
    assert forall|k: int, m: int|
        0 <= k < m < actions.len() && ready_said(#[trigger] actions[k]) implies ready_said(
        #[trigger] actions[m],
    ) by {
        if m < announced.len() {
            lemma_announced_kind(before.states, waiting, hash, k);
        } else {
            assert(actions[m] == ready[m - announced.len()]);
        }
    }
}

/// It is told that nothing is pending.
pub open spec fn ready_said(action: Action) -> bool {
    action matches Action::Emit { event: Event::PendingContentReady, .. }
}

proof fn lemma_announced_kind(
    states: States,
    namespaces: Seq<NamespaceId>,
    hash: ContentHash,
    k: int,
)
    requires
        0 <= k < content_ready_for_all(states, namespaces, hash).len(),
    ensures
        !ready_said(content_ready_for_all(states, namespaces, hash)[k]),
    decreases namespaces.len(),
{
    let done = content_ready_for_all(states, namespaces.drop_last(), hash);
    if k < done.len() {
        lemma_announced_kind(states, namespaces.drop_last(), hash, k);
    }
}

} // verus!

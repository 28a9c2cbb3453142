//! In which order what is to be done about content comes.

use n0_future::time::SystemTime;
use vstd::prelude::*;

use crate::hashes::namespaces_of;
use crate::ids::{ContentHash, NamespaceId};
use crate::laws::settling::{
    how_often, is_about, lemma_about_one, lemma_group_content, spread, tell,
};
use crate::live::{
    Action, DownloadCandidate, DownloadEnd, HashGroup, Input, StatusQuery, Step,
};
use crate::messages::BlobStatus;
use crate::model::{
    announces, content_ready_actions, content_ready_for_all, download_ended, enumerates,
    group_settled, groups_settled, input_taken, settled_count, stored_actions, LiveModel,
};
use crate::state::States;

verus! {

/// Neighbors are told of content only right after the subscribers to the same document were.
pub open spec fn subscribers_come_first(actions: Seq<Action>) -> bool {
    forall|k: int, namespace: NamespaceId, hash: ContentHash|
        #![trigger actions[k], spread(namespace, hash)]
        0 <= k < actions.len() && actions[k] == spread(namespace, hash) ==> k > 0 && actions[k - 1]
            == tell(namespace, hash)
}

/// Some candidate for the one document comes before some candidate for the other.
pub open spec fn asks_earlier(
    candidates: Seq<DownloadCandidate>,
    a: NamespaceId,
    b: NamespaceId,
) -> bool {
    exists|i: int, j: int|
        {
            &&& 0 <= i < j < candidates.len()
            &&& (#[trigger] candidates[i]).namespace == a
            &&& (#[trigger] candidates[j]).namespace == b
        }
}

/// Subscribers are told of the content in the order of the candidates.
pub open spec fn told_in_order(
    actions: Seq<Action>,
    hash: ContentHash,
    candidates: Seq<DownloadCandidate>,
) -> bool {
    forall|k: int, m: int, a: NamespaceId, b: NamespaceId|
        #![trigger actions[k], actions[m], tell(a, hash), tell(b, hash)]
        0 <= k < m < actions.len() && actions[k] == tell(a, hash) && actions[m] == tell(b, hash)
            ==> asks_earlier(candidates, a, b)
}

/// The actions that are about the content of one group come before those that are about the content
/// of a later one.
pub open spec fn groups_come_in_order(actions: Seq<Action>, groups: Seq<HashGroup>) -> bool {
    forall|k: int, m: int, i: int, j: int|
        #![trigger is_about(actions[k], groups[i].hash), is_about(actions[m], groups[j].hash)]
        0 <= k < m < actions.len() && 0 <= i < groups.len() && 0 <= j < groups.len() && is_about(
            actions[k],
            groups[i].hash,
        ) && is_about(actions[m], groups[j].hash) ==> i <= j
}

proof fn lemma_first_sum(a: Seq<Action>, b: Seq<Action>)
    requires
        subscribers_come_first(a),
        subscribers_come_first(b),
    ensures
        subscribers_come_first(a + b),
{
    assert forall|k: int, namespace: NamespaceId, hash: ContentHash|
        #![trigger (a + b)[k], spread(namespace, hash)]
        0 <= k < (a + b).len() && (a + b)[k] == spread(namespace, hash) implies k > 0 && (a + b)[k
        - 1] == tell(namespace, hash) by {
        if k < a.len() {
            assert(a[k] == spread(namespace, hash));
        } else {
            assert(b[k - a.len()] == spread(namespace, hash));
        }
    }
}

proof fn lemma_first_for_all(states: States, namespaces: Seq<NamespaceId>, hash: ContentHash)
    ensures
        subscribers_come_first(content_ready_for_all(states, namespaces, hash)),
    decreases namespaces.len(),
{
    if namespaces.len() > 0 {
        lemma_first_for_all(states, namespaces.drop_last(), hash);
        lemma_first_sum(
            content_ready_for_all(states, namespaces.drop_last(), hash),
            content_ready_actions(states, namespaces.last(), hash),
        );
    }
}

proof fn lemma_stored_in_order(
    model: LiveModel,
    hash: ContentHash,
    candidates: Seq<DownloadCandidate>,
)
    ensures
        subscribers_come_first(stored_actions(model, hash, candidates)),
        told_in_order(stored_actions(model, hash, candidates), hash, candidates),
        forall|k: int, a: NamespaceId|
            #![trigger stored_actions(model, hash, candidates)[k], tell(a, hash)]
            0 <= k < stored_actions(model, hash, candidates).len() && stored_actions(
                model,
                hash,
                candidates,
            )[k] == tell(a, hash) ==> exists|i: int|
                0 <= i < candidates.len() && (#[trigger] candidates[i]).namespace == a,
    decreases candidates.len(),
{
    if candidates.len() > 0 {
        let n = candidates.len() - 1;
        let front = candidates.drop_last();
        let done = stored_actions(model, hash, front);
        let more = if announces(model.missing, hash, candidates, n) {
            content_ready_actions(model.states, candidates[n].namespace, hash)
        } else {
            Seq::empty()
        };
        let all = stored_actions(model, hash, candidates);
        lemma_stored_in_order(model, hash, front);
        lemma_first_sum(done, more);
        assert(all =~= done + more);
        assert forall|k: int, a: NamespaceId|
            #![trigger all[k], tell(a, hash)]
            0 <= k < all.len() && all[k] == tell(a, hash) implies exists|i: int|
            0 <= i < candidates.len() && (#[trigger] candidates[i]).namespace == a by {
            if k < done.len() {
                assert(done[k] == tell(a, hash));
                let i = choose|i: int|
                    0 <= i < front.len() && (#[trigger] front[i]).namespace == a;
                assert(candidates[i].namespace == a);
            } else {
                assert(candidates[n].namespace == a);
            }
        }
        assert forall|k: int, m: int, a: NamespaceId, b: NamespaceId|
            #![trigger all[k], all[m], tell(a, hash), tell(b, hash)]
            0 <= k < m < all.len() && all[k] == tell(a, hash) && all[m] == tell(
                b,
                hash,
            ) implies asks_earlier(candidates, a, b) by {
            if k < done.len() {
                assert(done[k] == tell(a, hash));
                if m < done.len() {
                    assert(done[m] == tell(b, hash));
                    let (i, j) = choose|i: int, j: int|
                        {
                            &&& 0 <= i < j < front.len()
                            &&& (#[trigger] front[i]).namespace == a
                            &&& (#[trigger] front[j]).namespace == b
                        };
                    assert(candidates[i].namespace == a && candidates[j].namespace == b);
                } else {
                    let i = choose|i: int|
                        0 <= i < front.len() && (#[trigger] front[i]).namespace == a;
                    assert(candidates[i].namespace == a && candidates[n].namespace == b);
                }
            }
        }
    }
}

proof fn lemma_group_in_order(
    model: LiveModel,
    hash: ContentHash,
    candidates: Seq<DownloadCandidate>,
    status: BlobStatus,
)
    ensures
        ({
            let actions = group_settled(model, hash, candidates, status).1;
            &&& subscribers_come_first(actions)
            &&& told_in_order(actions, hash, candidates)
            &&& forall|k: int|
                0 <= k < actions.len() ==> is_about(#[trigger] actions[k], hash)
        }),
{
    let actions = group_settled(model, hash, candidates, status).1;
    lemma_stored_in_order(model, hash, candidates);
    lemma_group_content(model, hash, candidates, status);
    assert forall|k: int| 0 <= k < actions.len() implies is_about(#[trigger] actions[k], hash) by {
        broadcast use vstd::seq_lib::group_to_multiset_ensures;

        assert(actions.contains(actions[k]));
        assert(how_often(actions, actions[k]) > 0);
    }
}

proof fn lemma_groups_in_order(
    model: LiveModel,
    groups: Seq<HashGroup>,
    statuses: Seq<BlobStatus>,
    n: nat,
)
    requires
        n <= groups.len(),
        forall|j: int, k: int|
            0 <= j < k < groups.len() ==> (#[trigger] groups[j]).hash != (#[trigger] groups[k]).hash,
    ensures
        ({
            let actions = groups_settled(model, groups, statuses, n).1;
            &&& subscribers_come_first(actions)
            &&& groups_come_in_order(actions, groups)
            &&& forall|i: int|
                0 <= i < groups.len() ==> told_in_order(
                    actions,
                    (#[trigger] groups[i]).hash,
                    groups[i].candidates@,
                )
            &&& forall|k: int|
                0 <= k < actions.len() ==> exists|i: int|
                    0 <= i < n && is_about(#[trigger] actions[k], (#[trigger] groups[i]).hash)
        }),
    decreases n,
{
    if n > 0 {
        let last = n - 1;
        let (mid, done) = groups_settled(model, groups, statuses, last as nat);
        let group = groups[last];
        let more = group_settled(mid, group.hash, group.candidates@, statuses[last]).1;
        let all = groups_settled(model, groups, statuses, n).1;
        lemma_groups_in_order(model, groups, statuses, last as nat);
        lemma_group_in_order(mid, group.hash, group.candidates@, statuses[last]);
        lemma_first_sum(done, more);
        assert(all =~= done + more);
        assert forall|k: int, i: int|
            #![trigger is_about(all[k], groups[i].hash)]
            0 <= k < all.len() && 0 <= i < groups.len() && is_about(
                all[k],
                groups[i].hash,
            ) implies if k < done.len() {
            i < last
        } else {
            i == last
        } by {
            if k < done.len() {
                let own = choose|own: int|
                    0 <= own < last && is_about(#[trigger] done[k], (#[trigger] groups[own]).hash);
                assert(all[k] == done[k]);
                lemma_about_one(all[k], groups[i].hash, groups[own].hash);
            } else {
                assert(all[k] == more[k - done.len()]);
                lemma_about_one(all[k], groups[i].hash, group.hash);
            }
        }
        assert forall|k: int| 0 <= k < all.len() implies exists|i: int|
            0 <= i < n && is_about(#[trigger] all[k], (#[trigger] groups[i]).hash) by {
            if k < done.len() {
                let own = choose|own: int|
                    0 <= own < last && is_about(#[trigger] done[k], (#[trigger] groups[own]).hash);
                assert(is_about(all[k], groups[own].hash));
            } else {
                assert(is_about(more[k - done.len()], group.hash));
                assert(is_about(all[k], groups[last].hash));
            }
        }
        assert forall|k: int, m: int, i: int, j: int|
            #![trigger is_about(all[k], groups[i].hash), is_about(all[m], groups[j].hash)]
            0 <= k < m < all.len() && 0 <= i < groups.len() && 0 <= j < groups.len() && is_about(
                all[k],
                groups[i].hash,
            ) && is_about(all[m], groups[j].hash) implies i <= j by {
            if m < done.len() {
                assert(is_about(done[k], groups[i].hash) && is_about(done[m], groups[j].hash));
            }
        }
        assert forall|i: int| 0 <= i < groups.len() implies told_in_order(
            all,
            (#[trigger] groups[i]).hash,
            groups[i].candidates@,
        ) by {
            let hash = groups[i].hash;
            assert forall|k: int, m: int, a: NamespaceId, b: NamespaceId|
                #![trigger all[k], all[m], tell(a, hash), tell(b, hash)]
                0 <= k < m < all.len() && all[k] == tell(a, hash) && all[m] == tell(
                    b,
                    hash,
                ) implies asks_earlier(groups[i].candidates@, a, b) by {
                assert(is_about(all[k], groups[i].hash) && is_about(all[m], groups[i].hash));
                if m < done.len() {
                    assert(done[k] == tell(a, hash) && done[m] == tell(b, hash));
                } else {
                    assert(i == last && k >= done.len());
                    assert(more[k - done.len()] == tell(a, hash));
                    assert(more[m - done.len()] == tell(b, hash));
                }
            }
        }
    }
}

/// Where it has become known how much content is stored here, one content is seen to after the
/// other, as they were asked about. Subscribers are told of a content in the order in which the
/// documents asked for it, and the neighbors of a document right after its subscribers.
pub proof fn content_is_settled_in_order(
    before: LiveModel,
    query: StatusQuery,
    statuses: Vec<BlobStatus>,
    now: SystemTime,
    after: LiveModel,
    step: Step,
)
    requires
        input_taken(before, Input::Statuses { query, statuses }, now, after, step),
        forall|j: int, k: int|
            0 <= j < k < query.groups().len() ==> (#[trigger] query.groups()[j]).hash != (
            #[trigger] query.groups()[k]).hash,
    ensures
        subscribers_come_first(step.actions@),
        groups_come_in_order(step.actions@, query.groups()),
        forall|i: int|
            0 <= i < query.groups().len() ==> told_in_order(
                step.actions@,
                (#[trigger] query.groups()[i]).hash,
                query.groups()[i].candidates@,
            ),
{
    let groups = query.groups();
    let n = settled_count(groups, statuses@);
    let (settled, head) = groups_settled(before, groups, statuses@, n);
    let all = step.actions@;
    lemma_groups_in_order(before, groups, statuses@, n);
    let tail = all.skip(head.len() as int);
    assert(all =~= head + tail);
    assert forall|k: int, hash: ContentHash|
        #![trigger is_about(all[k], hash)]
        head.len() <= k < all.len() implies !is_about(all[k], hash) by {
        assert(all[k] == tail[k - head.len()]);
    }
    assert forall|k: int, namespace: NamespaceId, hash: ContentHash|
        #![trigger tail[k], spread(namespace, hash)]
        0 <= k < tail.len() implies tail[k] != spread(namespace, hash) by {
        assert(!is_about(all[head.len() + k], hash));
    }
    lemma_first_sum(head, tail);
    assert forall|k: int, m: int, i: int, j: int|
        #![trigger is_about(all[k], groups[i].hash), is_about(all[m], groups[j].hash)]
        0 <= k < m < all.len() && 0 <= i < groups.len() && 0 <= j < groups.len() && is_about(
            all[k],
            groups[i].hash,
        ) && is_about(all[m], groups[j].hash) implies i <= j by {
        assert(is_about(head[k], groups[i].hash) && is_about(head[m], groups[j].hash));
    }
    assert forall|i: int| 0 <= i < groups.len() implies told_in_order(
        all,
        (#[trigger] groups[i]).hash,
        groups[i].candidates@,
    ) by {
        let hash = groups[i].hash;
        assert forall|k: int, m: int, a: NamespaceId, b: NamespaceId|
            #![trigger all[k], all[m], tell(a, hash), tell(b, hash)]
            0 <= k < m < all.len() && all[k] == tell(a, hash) && all[m] == tell(
                b,
                hash,
            ) implies asks_earlier(groups[i].candidates@, a, b) by {
            assert(is_about(all[k], hash) && is_about(all[m], hash));
            assert(head[k] == tell(a, hash) && head[m] == tell(b, hash));
        }
    }
}

/// When a download has ended, the neighbors of a document are told of the content right after its
/// subscribers.
pub proof fn subscribers_are_told_of_a_download_first(
    before: LiveModel,
    end: DownloadEnd,
    now: SystemTime,
    after: LiveModel,
    step: Step,
)
    requires
        input_taken(before, Input::Download(Some(end)), now, after, step),
    ensures
        subscribers_come_first(step.actions@),
{
    let waiting = choose|waiting: Seq<NamespaceId>|
        {
            &&& #[trigger] enumerates(waiting, namespaces_of(before.queued, end.hash))
            &&& (after, step.actions@) == download_ended(before, end.hash, end.success, waiting)
        };
    lemma_first_for_all(before.states, waiting, end.hash);
    let announced = if end.success {
        content_ready_for_all(before.states, waiting, end.hash)
    } else {
        Seq::empty()
    };
    let ready = step.actions@.skip(announced.len() as int);
    assert(step.actions@ =~= announced + ready);
    lemma_first_sum(announced, ready);
}

} // verus!

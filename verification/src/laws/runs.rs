//! Whole runs of the engine, from the time when it knows of nothing.

use n0_future::time::SystemTime;
use vstd::prelude::*;

use crate::hashes::{has_hash, has_namespace};
use crate::ids::{ContentHash, InvalidPublicKey, NamespaceId, PublicKey};
use crate::laws::content::{
    a_download_is_started_once, a_new_engine_is_consistent, answers_for_sync, asks_for_sync,
    consistency_is_kept, ends_download, has_provider, is_consistent, is_wanted, lemma_step_tells,
    nothing_is_pending_when_that_is_announced, queued_content_stays_queued, starts_download, tells_nothing_pending,
    tells_of_content, tells_of_sync, wanted_content_is_not_forgotten,
    what_is_queued_is_being_downloaded,
};
use crate::laws::syncs::{
    a_running_sync_was_started_and_has_not_ended, ends_sync, starts_sync,
};
use crate::live::{Action, Input, Next, Step, MAX_REPLICA_EVENT_BATCH};
use crate::messages::ReplicaEvent;
use crate::model::{
    batch_taken, flush_step_taken, input_taken, or_refused, replica_event_taken, LiveModel,
};
use crate::state::{peer_state, ready_due, NamespaceModel, Origin, SyncState};

verus! {

/// One input and what came of it.
pub struct Moment {
    /// The engine before the input.
    pub before: LiveModel,
    /// The input.
    pub input: Input,
    /// The time of the input.
    pub now: SystemTime,
    /// The engine after the input.
    pub after: LiveModel,
    /// What the input led to.
    pub step: Step,
}

/// The engine knows of no document and no content.
pub open spec fn is_new(model: LiveModel) -> bool {
    &&& model.states == Map::<NamespaceId, NamespaceModel>::empty()
    &&& model.missing == Set::<(ContentHash, NamespaceId)>::empty()
    &&& model.queued == Set::<(ContentHash, NamespaceId)>::empty()
    &&& model.pending.len() == 0
}

/// Nothing but the subscribers has changed.
pub open spec fn same_but_for_subscribers(a: LiveModel, b: LiveModel) -> bool {
    b == LiveModel { subscribers: b.subscribers, ..a }
}

/// The moments follow each other, the first one on a new engine. A question how much content is
/// stored here is answered before anything else happens, and no other such answer comes. Between
/// moments subscribers may go.
pub open spec fn is_run(run: Seq<Moment>) -> bool {
    &&& run.len() > 0 ==> is_new(run[0].before)
    &&& forall|i: int|
        0 <= i < run.len() ==> input_taken(
            (#[trigger] run[i]).before,
            run[i].input,
            run[i].now,
            run[i].after,
            run[i].step,
        )
    &&& forall|i: int|
        0 < i < run.len() ==> same_but_for_subscribers(
            run[i - 1].after,
            (#[trigger] run[i]).before,
        )
    &&& forall|i: int|
        0 <= i < run.len() ==> ((#[trigger] run[i]).input matches Input::Statuses { query, .. }
            ==> 0 < i && run[i - 1].step.next == Next::QueryStatuses(query))
}

/// A sync was started at the moment `j`, and its end has not come up to the moment `i`.
pub open spec fn sync_under_way(
    run: Seq<Moment>,
    j: int,
    i: int,
    namespace: NamespaceId,
    peer: PublicKey,
    origin: Origin,
) -> bool {
    &&& 0 <= j <= i
    &&& starts_sync(run[j].input, run[j].step, namespace, peer, origin)
    &&& forall|k: int| j < k <= i ==> !ends_sync((#[trigger] run[k]).input, namespace, peer, origin)
}

/// A sync that is noted as running is under way: it was started at some moment, and its end has
/// not come since. So no peer stays busy for longer than its sync takes.
pub proof fn a_running_sync_is_under_way(
    run: Seq<Moment>,
    i: int,
    namespace: NamespaceId,
    peer: PublicKey,
    start: SystemTime,
    origin: Origin,
)
    requires
        is_run(run),
        0 <= i < run.len(),
        peer_state(run[i].after.states, namespace, peer).sync == (SyncState::Running {
            start,
            origin,
        }),
    ensures
        exists|j: int| #[trigger] sync_under_way(run, j, i, namespace, peer, origin),
    decreases i,
{
    let moment = run[i];
    a_running_sync_was_started_and_has_not_ended(
        moment.before,
        moment.input,
        moment.now,
        moment.after,
        moment.step,
        namespace,
        peer,
        start,
        origin,
    );
    if starts_sync(moment.input, moment.step, namespace, peer, origin) {
        assert(sync_under_way(run, i, i, namespace, peer, origin));
    } else {
        assert(0 < i);
        a_running_sync_is_under_way(run, i - 1, namespace, peer, start, origin);
        let j = choose|j: int| #[trigger] sync_under_way(run, j, i - 1, namespace, peer, origin);
        assert(sync_under_way(run, j, i, namespace, peer, origin));
    }
}

/// A download was started at the moment `j`, and its end has not come up to the moment `i`.
pub open spec fn download_under_way(
    run: Seq<Moment>,
    j: int,
    i: int,
    hash: ContentHash,
) -> bool {
    &&& 0 <= j <= i
    &&& starts_download(run[j].step.actions@, hash)
    &&& forall|k: int| j < k <= i ==> !ends_download((#[trigger] run[k]).input, hash)
}

/// Content that is waited for is being downloaded.
pub proof fn what_is_waited_for_is_under_way(run: Seq<Moment>, i: int, hash: ContentHash)
    requires
        is_run(run),
        0 <= i < run.len(),
        has_hash(run[i].after.queued, hash),
    ensures
        exists|j: int| #[trigger] download_under_way(run, j, i, hash),
    decreases i,
{
    let moment = run[i];
    what_is_queued_is_being_downloaded(
        moment.before,
        moment.input,
        moment.now,
        moment.after,
        moment.step,
        hash,
    );
    if starts_download(moment.step.actions@, hash) {
        assert(download_under_way(run, i, i, hash));
    } else {
        let namespace = choose|namespace: NamespaceId| #[trigger]
            moment.before.queued.contains((hash, namespace));
        assert(0 < i);
        assert(run[i - 1].after.queued.contains((hash, namespace)));
        what_is_waited_for_is_under_way(run, i - 1, hash);
        let j = choose|j: int| #[trigger] download_under_way(run, j, i - 1, hash);
        assert(download_under_way(run, j, i, hash));
    }
}

/// Some download of the content ends between two moments.
pub open spec fn download_ends_between(
    run: Seq<Moment>,
    i: int,
    j: int,
    hash: ContentHash,
) -> bool {
    exists|k: int| i < k < j && ends_download((#[trigger] run[k]).input, hash)
}

proof fn lemma_stays_queued(run: Seq<Moment>, i: int, j: int, hash: ContentHash)
    requires
        is_run(run),
        0 <= i < j < run.len(),
        starts_download(run[i].step.actions@, hash),
        !download_ends_between(run, i, j, hash),
    ensures
        has_hash(run[j].before.queued, hash),
    decreases j,
{
    let last = run[j - 1];
    if i == j - 1 {
        a_download_is_started_once(
            last.before,
            last.input,
            last.now,
            last.after,
            last.step,
            hash,
        );
    } else {
        assert(!download_ends_between(run, i, j - 1, hash));
        lemma_stays_queued(run, i, j - 1, hash);
        assert(!ends_download(last.input, hash));
        queued_content_stays_queued(
            last.before,
            last.input,
            last.now,
            last.after,
            last.step,
            hash,
        );
    }
    let namespace = choose|namespace: NamespaceId| #[trigger]
        last.after.queued.contains((hash, namespace));
    assert(run[j].before.queued.contains((hash, namespace)));
}

/// No content is downloaded twice at the same time: before a second download of it is started, the
/// first one has ended.
pub proof fn downloads_of_the_same_content_do_not_overlap(
    run: Seq<Moment>,
    i: int,
    j: int,
    hash: ContentHash,
)
    requires
        is_run(run),
        0 <= i < j < run.len(),
        starts_download(run[i].step.actions@, hash),
        starts_download(run[j].step.actions@, hash),
    ensures
        download_ends_between(run, i, j, hash),
{
    if !download_ends_between(run, i, j, hash) {
        lemma_stays_queued(run, i, j, hash);
        let moment = run[j];
        a_download_is_started_once(
            moment.before,
            moment.input,
            moment.now,
            moment.after,
            moment.step,
            hash,
        );
    }
}

/// Content is waited for exactly while a download of it is under way, and no two are at once: at
/// every moment the downloads that have not ended are those of the hashes that are queued, one for
/// each.
pub proof fn downloads_under_way_are_those_that_are_queued(
    run: Seq<Moment>,
    i: int,
    hash: ContentHash,
)
    requires
        is_run(run),
        0 <= i < run.len(),
    ensures
        has_hash(run[i].after.queued, hash) <==> exists|j: int| #[trigger]
            download_under_way(run, j, i, hash),
        forall|j: int, k: int|
            #![trigger download_under_way(run, j, i, hash), download_under_way(run, k, i, hash)]
            download_under_way(run, j, i, hash) && download_under_way(run, k, i, hash) ==> j == k,
{
    let last = run[i];
    if has_hash(last.after.queued, hash) {
        what_is_waited_for_is_under_way(run, i, hash);
    }
    if exists|j: int| #[trigger] download_under_way(run, j, i, hash) {
        let j = choose|j: int| #[trigger] download_under_way(run, j, i, hash);
        if j == i {
            a_download_is_started_once(
                last.before,
                last.input,
                last.now,
                last.after,
                last.step,
                hash,
            );
        } else {
            lemma_stays_queued(run, j, i, hash);
            queued_content_stays_queued(
                last.before,
                last.input,
                last.now,
                last.after,
                last.step,
                hash,
            );
        }
    }
    assert forall|j: int, k: int|
        #![trigger download_under_way(run, j, i, hash), download_under_way(run, k, i, hash)]
        download_under_way(run, j, i, hash) && download_under_way(run, k, i, hash) implies j
        == k by {
        if j < k {
            downloads_of_the_same_content_do_not_overlap(run, j, k, hash);
        }
        if k < j {
            downloads_of_the_same_content_do_not_overlap(run, k, j, hash);
        }
    }
}

/// The change that the input brings, if it brings one.
pub open spec fn change_of(input: Input) -> Option<ReplicaEvent> {
    match input {
        Input::ReplicaEvent(event) => event,
        Input::BatchEvent { event, .. } => event,
        _ => None,
    }
}

/// The next input is the answer to the question for the next change of a batch.
pub open spec fn goes_on(moment: Moment, next: Moment) -> bool {
    &&& moment.step.next matches Next::NextInBatch { handled: asked }
    &&& next.input matches Input::BatchEvent { handled, .. }
    &&& handled == asked
}

/// The moment `j` starts a batch with a first change, and the `n` moments behind it each answer
/// the question for the next change.
pub open spec fn is_batch(run: Seq<Moment>, j: int, n: nat) -> bool {
    &&& 0 <= j
    &&& j + n < run.len()
    &&& run[j].input matches Input::ReplicaEvent(Some(_))
    &&& forall|k: int| j < k <= j + n ==> goes_on(run[k - 1], #[trigger] run[k])
}

/// The change that the moment brings is taken, and leads to the given engine.
pub open spec fn change_taken(moment: Moment, changed: LiveModel) -> bool {
    &&& change_of(moment.input) matches Some(event)
    &&& exists|result: Result<Vec<Action>, InvalidPublicKey>|
        {
            &&& #[trigger] replica_event_taken(moment.before, event, changed, result)
            &&& moment.step.actions@ == or_refused(result)
        }
}

/// The moment ends a batch: its change is taken, if it brings one, which leads to the given engine,
/// and the pending downloads are taken up.
pub open spec fn batch_ended(moment: Moment, changed: LiveModel) -> bool {
    &&& if change_of(moment.input) is Some {
        change_taken(moment, changed)
    } else {
        changed == moment.before && moment.step.actions@ == Seq::<Action>::empty()
    }
    &&& flush_step_taken(changed, moment.after, moment.step.next)
    &&& moment.after.pending.len() == 0
}

/// Taking a change only adds to the pending downloads.
proof fn lemma_change_only_adds(
    before: LiveModel,
    event: ReplicaEvent,
    changed: LiveModel,
    result: Result<Vec<Action>, InvalidPublicKey>,
)
    requires
        replica_event_taken(before, event, changed, result),
    ensures
        before.pending.is_prefix_of(changed.pending),
{
    assert(before.pending =~= before.pending.subrange(0, before.pending.len() as int));
    if changed.pending.len() > before.pending.len() {
        assert(changed.pending.subrange(0, before.pending.len() as int) =~= before.pending);
    }
}

/// One step of a batch takes its change and asks for the next one, or ends the batch.
proof fn lemma_batch_step(moment: Moment, handled: nat)
    requires
        batch_taken(
            moment.before,
            handled,
            change_of(moment.input),
            moment.after,
            moment.step,
        ),
    ensures
        match moment.step.next {
            Next::NextInBatch { handled: so_far } => {
                &&& so_far == handled + 1
                &&& handled < MAX_REPLICA_EVENT_BATCH
                &&& change_taken(moment, moment.after)
                &&& moment.before.pending.is_prefix_of(moment.after.pending)
            },
            _ => exists|changed: LiveModel|
                #![trigger batch_ended(moment, changed)]
                batch_ended(moment, changed) && moment.before.pending.is_prefix_of(
                    changed.pending,
                ),
        },
{
    match change_of(moment.input) {
        Some(event) => {
            let (changed, result) = choose|
                changed: LiveModel,
                result: Result<Vec<Action>, InvalidPublicKey>,
            |
                {
                    &&& #[trigger] replica_event_taken(moment.before, event, changed, result)
                    &&& moment.step.actions@ == or_refused(result)
                    &&& if handled < MAX_REPLICA_EVENT_BATCH {
                        &&& moment.after == changed
                        &&& moment.step.next matches Next::NextInBatch { handled: so_far }
                        &&& so_far == handled + 1
                    } else {
                        flush_step_taken(changed, moment.after, moment.step.next)
                    }
                };
            lemma_change_only_adds(moment.before, event, changed, result);
            assert(change_taken(moment, changed));
            if handled >= MAX_REPLICA_EVENT_BATCH {
                assert(batch_ended(moment, changed));
            }
        },
        None => {
            let pending = moment.before.pending;
            assert(pending =~= pending.subrange(0, pending.len() as int));
            assert(batch_ended(moment, moment.before));
        },
    }
}

/// A moment of a batch counts the changes before it, and either takes its change and asks for the
/// next one, or ends the batch.
proof fn lemma_batch_moment(run: Seq<Moment>, j: int, n: nat, k: nat)
    requires
        is_run(run),
        is_batch(run, j, n),
        k <= n,
    ensures
        ({
            let moment = run[j + k];
            &&& k <= MAX_REPLICA_EVENT_BATCH
            &&& k > 0 ==> (moment.input matches Input::BatchEvent { handled, .. } && handled == k)
            &&& match moment.step.next {
                Next::NextInBatch { handled } => {
                    &&& handled == k + 1
                    &&& k < MAX_REPLICA_EVENT_BATCH
                    &&& change_taken(moment, moment.after)
                    &&& moment.before.pending.is_prefix_of(moment.after.pending)
                },
                _ => exists|changed: LiveModel|
                    #![trigger batch_ended(moment, changed)]
                    batch_ended(moment, changed) && moment.before.pending.is_prefix_of(
                        changed.pending,
                    ),
            }
        }),
    decreases k,
{
    let moment = run[j + k];
    if k > 0 {
        lemma_batch_moment(run, j, n, (k - 1) as nat);
        assert(goes_on(run[j + k - 1], run[j + k]));
    }
    lemma_batch_step(moment, k);
}

/// A batch takes the first change and at most [`MAX_REPLICA_EVENT_BATCH`] more, in the order in
/// which they come and each once. Until it ends, pending downloads are only added to. When it ends,
/// which it does at the latest with the last change that it has room for, all of them are taken up,
/// once, and nothing is pending.
pub proof fn a_batch_is_bounded(run: Seq<Moment>, j: int, n: nat)
    requires
        is_run(run),
        is_batch(run, j, n),
    ensures
        n <= MAX_REPLICA_EVENT_BATCH,
        forall|k: int|
            j <= k < j + n ==> {
                &&& change_taken(#[trigger] run[k], run[k].after)
                &&& run[k].before.pending.is_prefix_of(run[k].after.pending)
                &&& !(run[k].step.next is QueryStatuses)
            },
        n == MAX_REPLICA_EVENT_BATCH ==> !(run[j + n].step.next is NextInBatch),
        match run[j + n].step.next {
            Next::NextInBatch { .. } => {
                &&& change_taken(run[j + n], run[j + n].after)
                &&& run[j].before.pending.is_prefix_of(run[j + n].after.pending)
            },
            _ => exists|changed: LiveModel|
                #![trigger batch_ended(run[j + n], changed)]
                batch_ended(run[j + n], changed) && run[j].before.pending.is_prefix_of(
                    changed.pending,
                ),
        },
{
    assert forall|k: int| j <= k < j + n implies {
        &&& change_taken(#[trigger] run[k], run[k].after)
        &&& run[k].before.pending.is_prefix_of(run[k].after.pending)
        &&& !(run[k].step.next is QueryStatuses)
    } by {
        lemma_batch_moment(run, j, n, (k - j) as nat);
        assert(goes_on(run[k + 1 - 1], run[k + 1]));
    }
    lemma_batch_moment(run, j, n, n);
    lemma_batch_only_adds(run, j, n);
    let last = run[j + n];
    if !(last.step.next is NextInBatch) {
        let changed = choose|changed: LiveModel|
            #![trigger batch_ended(last, changed)]
            batch_ended(last, changed) && last.before.pending.is_prefix_of(changed.pending);
        lemma_prefix(run[j].before.pending, last.before.pending, changed.pending);
        assert(batch_ended(run[j + n], changed));
    } else {
        lemma_prefix(run[j].before.pending, last.before.pending, last.after.pending);
    }
}

/// What was pending before a batch is pending before each of its moments.
proof fn lemma_batch_only_adds(run: Seq<Moment>, j: int, n: nat)
    requires
        is_run(run),
        is_batch(run, j, n),
    ensures
        run[j].before.pending.is_prefix_of(run[j + n].before.pending),
    decreases n,
{
    if n > 0 {
        let fewer = (n - 1) as nat;
        assert(is_batch(run, j, fewer));
        lemma_batch_only_adds(run, j, fewer);
        lemma_batch_moment(run, j, fewer, fewer);
        assert(goes_on(run[j + n - 1], run[j + n]));
        assert(same_but_for_subscribers(run[j + n - 1].after, run[j + n].before));
        lemma_prefix(
            run[j].before.pending,
            run[j + fewer].before.pending,
            run[j + n].before.pending,
        );
    }
}

proof fn lemma_prefix<T>(a: Seq<T>, b: Seq<T>, c: Seq<T>)
    requires
        a.is_prefix_of(b),
        b.is_prefix_of(c),
    ensures
        a.is_prefix_of(c),
{
    assert forall|i: int| 0 <= i < a.len() implies a[i] == c[i] by {
        assert(a[i] == b.subrange(0, a.len() as int)[i]);
        assert(b[i] == c.subrange(0, b.len() as int)[i]);
    }
    assert(a =~= c.subrange(0, a.len() as int));
}

/// Subscribers to the document are told of the end of a sync at some moment from `a` to `i`.
pub open spec fn told_of_sync(run: Seq<Moment>, a: int, i: int, namespace: NamespaceId) -> bool {
    exists|k: int| a <= k <= i && tells_of_sync((#[trigger] run[k]).step.actions@, namespace)
}

proof fn lemma_told_since(run: Seq<Moment>, a: int, i: int, namespace: NamespaceId)
    requires
        is_run(run),
        0 <= a <= i < run.len(),
        !ready_due(run[a].before.states, namespace),
        a > 0 ==> !asks_for_sync(run[a - 1].step, namespace),
        tells_nothing_pending(run[i].step.actions@, namespace) || ready_due(
            run[i].after.states,
            namespace,
        ),
    ensures
        told_of_sync(run, a, i, namespace),
    decreases i,
{
    let moment = run[i];
    lemma_step_tells(
        moment.before,
        moment.input,
        moment.now,
        moment.after,
        moment.step,
        namespace,
    );
    if tells_of_sync(moment.step.actions@, namespace) {
    } else if answers_for_sync(moment.input, namespace) {
        assert(asks_for_sync(run[i - 1].step, namespace));
        let asked = run[i - 1];
        lemma_step_tells(
            asked.before,
            asked.input,
            asked.now,
            asked.after,
            asked.step,
            namespace,
        );
        assert(tells_of_sync(run[i - 1].step.actions@, namespace));
    } else {
        assert(ready_due(moment.before.states, namespace));
        lemma_told_since(run, a, i - 1, namespace);
        let k = choose|k: int|
            a <= k <= i - 1 && tells_of_sync((#[trigger] run[k]).step.actions@, namespace);
        assert(tells_of_sync(run[k].step.actions@, namespace));
    }
}

/// Subscribers are told that nothing is pending only after they were told of the end of a sync.
pub proof fn nothing_pending_is_told_only_after_a_sync(
    run: Seq<Moment>,
    i: int,
    namespace: NamespaceId,
)
    requires
        is_run(run),
        0 <= i < run.len(),
        tells_nothing_pending(run[i].step.actions@, namespace),
    ensures
        told_of_sync(run, 0, i, namespace),
{
    lemma_told_since(run, 0, i, namespace);
}

/// Once subscribers were told that nothing is pending, they are told so again only after they were
/// told of the end of another sync.
pub proof fn nothing_pending_is_told_again_only_after_another_sync(
    run: Seq<Moment>,
    i: int,
    j: int,
    namespace: NamespaceId,
)
    requires
        is_run(run),
        0 <= i < j < run.len(),
        tells_nothing_pending(run[i].step.actions@, namespace),
        tells_nothing_pending(run[j].step.actions@, namespace),
    ensures
        told_of_sync(run, i + 1, j, namespace),
{
    let moment = run[i];
    nothing_is_pending_when_that_is_announced(
        moment.before,
        moment.input,
        moment.now,
        moment.after,
        moment.step,
        namespace,
    );
    lemma_step_tells(
        moment.before,
        moment.input,
        moment.now,
        moment.after,
        moment.step,
        namespace,
    );
    assert(same_but_for_subscribers(run[i + 1 - 1].after, run[i + 1].before));
    lemma_told_since(run, i + 1, j, namespace);
}

/// The engine is consistent at all times.
pub proof fn a_run_is_consistent(run: Seq<Moment>, i: int)
    requires
        is_run(run),
        0 <= i < run.len(),
    ensures
        is_consistent(run[i].before),
        is_consistent(run[i].after),
    decreases i,
{
    let moment = run[i];
    if i == 0 {
        a_new_engine_is_consistent(moment.before);
    } else {
        a_run_is_consistent(run, i - 1);
        lemma_consistent_without_subscribers(run[i - 1].after, moment.before);
    }
    consistency_is_kept(
        moment.before,
        moment.input,
        moment.now,
        moment.after,
        moment.step,
    );
}

proof fn lemma_consistent_without_subscribers(a: LiveModel, b: LiveModel)
    requires
        is_consistent(a),
        same_but_for_subscribers(a, b),
    ensures
        is_consistent(b),
{
    assert forall|hash: ContentHash| #[trigger]
        has_hash(b.queued, hash) implies has_provider(b, hash) by {
        assert(has_hash(a.queued, hash));
        let peer = choose|peer: PublicKey| #[trigger] a.providers.contains((hash, peer));
        assert(b.providers.contains((hash, peer)));
    }
    assert forall|namespace: NamespaceId| #[trigger]
        ready_due(b.states, namespace) implies has_namespace(
        b.queued,
        namespace,
    ) by {
        assert(ready_due(a.states, namespace));
    }
}

/// Subscribers to the document are told of the content at some moment after `i` and up to `j`.
pub open spec fn told_of_content(
    run: Seq<Moment>,
    i: int,
    j: int,
    namespace: NamespaceId,
    hash: ContentHash,
) -> bool {
    exists|k: int|
        i < k <= j && tells_of_content((#[trigger] run[k]).step.actions@, namespace, hash)
}

/// Content that a document waits for or misses is wanted at every later moment, unless subscribers
/// have been told that it is available.
pub proof fn content_is_wanted_until_it_is_there(
    run: Seq<Moment>,
    i: int,
    j: int,
    hash: ContentHash,
    namespace: NamespaceId,
)
    requires
        is_run(run),
        0 <= i <= j < run.len(),
        is_wanted(run[i].after, hash, namespace),
    ensures
        is_wanted(run[j].after, hash, namespace) || told_of_content(run, i, j, namespace, hash),
    decreases j,
{
    if i < j {
        content_is_wanted_until_it_is_there(run, i, j - 1, hash, namespace);
        if told_of_content(run, i, j - 1, namespace, hash) {
            let k = choose|k: int|
                i < k <= j - 1 && tells_of_content(
                    (#[trigger] run[k]).step.actions@,
                    namespace,
                    hash,
                );
            assert(tells_of_content(run[k].step.actions@, namespace, hash));
        } else {
            let moment = run[j];
            assert(is_wanted(moment.before, hash, namespace));
            wanted_content_is_not_forgotten(
                moment.before,
                moment.input,
                moment.now,
                moment.after,
                moment.step,
                hash,
                namespace,
            );
        }
    }
}

} // verus!

//! Who is told of the events of a document.

use async_channel::Sender;
use vstd::prelude::*;

use crate::ids::NamespaceId;
use crate::messages::Event;
use crate::sorted::SortedMap;

verus! {

/// The senders whose delivery succeeded, in order.
pub open spec fn delivered_to(
    senders: Seq<Sender<Event>>,
    delivered: Seq<bool>,
) -> Seq<Sender<Event>>
    decreases senders.len(),
{
    if senders.len() == 0 {
        Seq::empty()
    } else {
        let kept = delivered_to(senders.drop_last(), delivered);
        if delivered[senders.len() - 1] {
            kept.push(senders.last())
        } else {
            kept
        }
    }
}

/// The subscribers of one document.
pub struct Subscribers {
    senders: Vec<Sender<Event>>,
}

impl View for Subscribers {
    type V = Seq<Sender<Event>>;

    closed spec fn view(&self) -> Seq<Sender<Event>> {
        self.senders@
    }
}

impl Subscribers {
    /// Nobody has subscribed.
    pub fn new() -> (r: Self)
        ensures
            r@ == Seq::<Sender<Event>>::empty(),
    {
        Subscribers { senders: Vec::new() }
    }

    /// Adds a subscriber behind the others.
    pub fn subscribe(&mut self, sender: Sender<Event>)
        ensures
            final(self)@ == old(self)@.push(sender),
    {
        self.senders.push(sender);
    }

    /// The senders that an event goes to.
    pub fn senders(&self) -> (r: &Vec<Sender<Event>>)
        ensures
            r@ == self@,
    {
        &self.senders
    }

    /// Takes note of which senders an event was delivered to: the others are dropped. Tells whether
    /// any subscriber is left.
    pub fn settle(&mut self, delivered: &Vec<bool>) -> (r: bool)
        requires
            delivered@.len() == old(self)@.len(),
        ensures
            final(self)@ == delivered_to(old(self)@, delivered@),
            r == (final(self)@.len() > 0),
    {
        let ghost all = self.senders@;
        let mut i: usize = self.senders.len();
        assert(all.take(i as int) =~= all);
        assert(delivered_to(all, delivered@) + all.skip(i as int) =~= delivered_to(all, delivered@));
        // from the back, so that removing does not shift the senders still to be looked at
        while i > 0
            invariant
                i <= all.len(),
                all.len() == delivered@.len(),
                self.senders@.len() >= i,
                self.senders@.take(i as int) == all.take(i as int),
                delivered_to(all.take(i as int), delivered@) + self.senders@.skip(i as int)
                    == delivered_to(all, delivered@),
            decreases i,
        {
            i = i - 1;
            let ghost before = self.senders@;
            assert(before.take(i + 1)[i as int] == all.take(i + 1)[i as int]);
            assert(all.take(i + 1).drop_last() =~= all.take(i as int));
            if !delivered[i] {
                self.senders.remove(i);
                assert(self.senders@.skip(i as int) =~= before.skip(i + 1));
            } else {
                assert(delivered_to(all.take(i as int), delivered@) + before.skip(i as int)
                    =~= delivered_to(all.take(i + 1), delivered@) + before.skip(i + 1));
            }
            assert(self.senders@.take(i as int) =~= all.take(i as int)) by {
                assert(before.take(i + 1).take(i as int) =~= before.take(i as int));
                assert(all.take(i + 1).take(i as int) =~= all.take(i as int));
                assert(self.senders@.take(i as int) =~= before.take(i as int));
            }
        }
        assert(delivered_to(all.take(0), delivered@) + self.senders@.skip(0) =~= self.senders@);
        self.senders.len() > 0
    }
}

/// The subscribers of each document.
pub struct SubscribersMap {
    subscribers: SortedMap<NamespaceId, Subscribers>,
}

/// The subscribers of the documents that have any.
pub type SubscriberLists = Map<NamespaceId, Seq<Sender<Event>>>;

/// The senders that an event of a document goes to.
pub open spec fn senders_of(
    lists: SubscriberLists,
    namespace: NamespaceId,
) -> Seq<Sender<Event>> {
    if lists.contains_key(namespace) {
        lists[namespace]
    } else {
        Seq::empty()
    }
}

/// The lists after an event of a document was sent. A document whose last subscriber is gone is
/// forgotten.
pub open spec fn lists_settled(
    lists: SubscriberLists,
    namespace: NamespaceId,
    delivered: Seq<bool>,
) -> SubscriberLists {
    let kept = delivered_to(senders_of(lists, namespace), delivered);
    if kept.len() > 0 {
        lists.insert(namespace, kept)
    } else {
        lists.remove(namespace)
    }
}

impl View for SubscribersMap {
    type V = SubscriberLists;

    closed spec fn view(&self) -> SubscriberLists {
        Map::new(
            |namespace: NamespaceId| self.subscribers@.contains_key(namespace),
            |namespace: NamespaceId| self.subscribers@[namespace]@,
        )
    }
}

impl SubscribersMap {
    /// The table is in order, and holds no empty list.
    pub closed spec fn wf(self) -> bool {
        &&& self.subscribers.wf()
        &&& forall|namespace: NamespaceId| #[trigger]
            self@.contains_key(namespace) ==> self@[namespace].len() > 0
    }

    /// A document of the table has at least one subscriber.
    pub proof fn lemma_no_empty_list(self, namespace: NamespaceId)
        requires
            self.wf(),
        ensures
            self@.contains_key(namespace) ==> self@[namespace].len() > 0,
    {
    }

    /// Nobody has subscribed to anything.
    pub fn new() -> (r: Self)
        ensures
            r.wf(),
            r@ == Map::<NamespaceId, Seq<Sender<Event>>>::empty(),
    {
        let r = SubscribersMap { subscribers: SortedMap::new() };
        assert(r@ =~= Map::<NamespaceId, Seq<Sender<Event>>>::empty());
        r
    }

    /// Adds a subscriber of a document behind its others.
    pub fn subscribe(&mut self, namespace: NamespaceId, sender: Sender<Event>)
        requires
            old(self).wf(),
        ensures
            final(self).wf(),
            final(self)@ == old(self)@.insert(
                namespace,
                senders_of(old(self)@, namespace).push(sender),
            ),
    {
        match self.subscribers.get_mut(&namespace) {
            Some(subscribers) => {
                subscribers.subscribe(sender);
            },
            None => {
                let mut subscribers = Subscribers::new();
                subscribers.subscribe(sender);
                self.subscribers.insert(namespace, subscribers);
            },
        }
        assert(self@ =~= old(self)@.insert(
            namespace,
            senders_of(old(self)@, namespace).push(sender),
        ));
    }

    /// The senders that an event of a document goes to, if it has any.
    pub fn senders(&self, namespace: &NamespaceId) -> (r: Option<&Vec<Sender<Event>>>)
        requires
            self.wf(),
        ensures
            r is Some <==> self@.contains_key(*namespace),
            r matches Some(senders) ==> senders@ == self@[*namespace],
    {
        match self.subscribers.get(namespace) {
            Some(subscribers) => Some(subscribers.senders()),
            None => None,
        }
    }

    /// Takes note of which senders an event of a document was delivered to. Tells whether the
    /// document had any subscriber.
    pub fn settle(&mut self, namespace: &NamespaceId, delivered: &Vec<bool>) -> (r: bool)
        requires
            old(self).wf(),
            delivered@.len() == senders_of(old(self)@, *namespace).len(),
        ensures
            final(self).wf(),
            r == old(self)@.contains_key(*namespace),
            final(self)@ == lists_settled(old(self)@, *namespace, delivered@),
    {
        let mut left: bool = true;
        let found = match self.subscribers.get_mut(namespace) {
            Some(subscribers) => {
                left = subscribers.settle(delivered);
                true
            },
            None => false,
        };
        if !left {
            self.subscribers.remove(namespace);
        }
        assert(self@ =~= lists_settled(old(self)@, *namespace, delivered@));
        found
    }

    /// Forgets the subscribers of a document.
    pub fn remove(&mut self, namespace: &NamespaceId)
        requires
            old(self).wf(),
        ensures
            final(self).wf(),
            final(self)@ == old(self)@.remove(*namespace),
    {
        self.subscribers.remove(namespace);
        assert(self@ =~= old(self)@.remove(*namespace));
    }

    /// Forgets all subscribers.
    pub fn clear(&mut self)
        ensures
            final(self).wf(),
            final(self)@ == Map::<NamespaceId, Seq<Sender<Event>>>::empty(),
    {
        self.subscribers.clear();
        assert(self@ =~= Map::<NamespaceId, Seq<Sender<Event>>>::empty());
    }
}

} // verus!

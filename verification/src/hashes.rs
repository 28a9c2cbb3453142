//! Which content is wanted for which document, and who is known to have it.
//!
//! The tables here are relations between content hashes and namespaces. Each is stored twice, by
//! hash and by namespace, so that it can be walked from either side.

use vstd::prelude::*;

use crate::ids::{ContentHash, Id, NamespaceId, PublicKey};
use crate::sorted::{SortedMap, SortedSet};

verus! {

/// A relation between hashes and namespaces.
pub type Pairs = Set<(ContentHash, NamespaceId)>;

/// The namespaces related to a hash.
pub open spec fn namespaces_of(pairs: Pairs, hash: ContentHash) -> Set<NamespaceId> {
    Set::new(|namespace: NamespaceId| pairs.contains((hash, namespace)))
}

/// The hashes related to a namespace.
pub open spec fn hashes_of(pairs: Pairs, namespace: NamespaceId) -> Set<ContentHash> {
    Set::new(|hash: ContentHash| pairs.contains((hash, namespace)))
}

/// The relation without any pair of the given hash.
pub open spec fn without_hash(pairs: Pairs, hash: ContentHash) -> Pairs {
    pairs.filter(|pair: (ContentHash, NamespaceId)| pair.0 != hash)
}

/// The relation between one hash and each of the given namespaces.
pub open spec fn pairs_with(hash: ContentHash, namespaces: Set<NamespaceId>) -> Pairs {
    Set::new(|pair: (ContentHash, NamespaceId)| pair.0 == hash && namespaces.contains(pair.1))
}

/// The namespace has the hash and no other.
pub open spec fn is_last_hash(pairs: Pairs, hash: ContentHash, namespace: NamespaceId) -> bool {
    &&& pairs.contains((hash, namespace))
    &&& forall|other: ContentHash| #[trigger] pairs.contains((other, namespace)) ==> other == hash
}

/// Some namespace is related to the hash.
pub open spec fn has_hash(pairs: Pairs, hash: ContentHash) -> bool {
    exists|namespace: NamespaceId| #[trigger] pairs.contains((hash, namespace))
}

/// Some hash is related to the namespace.
pub open spec fn has_namespace(pairs: Pairs, namespace: NamespaceId) -> bool {
    exists|hash: ContentHash| #[trigger] pairs.contains((hash, namespace))
}

/// `key` is related to `item` in a map of sets.
pub(crate) open spec fn related<K: Id, T: Id>(
    map: Map<K, SortedSet<T>>,
    key: K,
    item: T,
) -> bool {
    map.contains_key(key) && map[key]@.contains(item)
}

/// Every set of the map is in order, and none is empty.
pub(crate) open spec fn sets_filled<K: Id, T: Id>(
    map: Map<K, SortedSet<T>>,
) -> bool {
    forall|key: K| #[trigger]
        map.contains_key(key) ==> map[key].wf() && exists|item: T| map[key]@.contains(item)
}

/// Adds an item to the set of a key.
pub(crate) fn add_item<K: Id, T: Id>(
    map: &mut SortedMap<K, SortedSet<T>>,
    key: K,
    item: T,
)
    requires
        old(map).wf(),
        sets_filled(old(map)@),
    ensures
        final(map).wf(),
        sets_filled(final(map)@),
        forall|k: K, t: T|
            #![trigger related(final(map)@, k, t)]
            related(final(map)@, k, t) <==> related(old(map)@, k, t) || (k == key && t == item),
        forall|k: K| #[trigger]
            final(map)@.contains_key(k) <==> old(map)@.contains_key(k) || k == key,
{
    match map.get_mut(&key) {
        Some(set) => {
            set.insert(item);
            assert(set@.contains(item));
        },
        None => {
            let mut set = SortedSet::new();
            set.insert(item);
            assert(set@.contains(item));
            map.insert(key, set);
        },
    }
}

/// Takes an item out of the set of a key, and the key with it if nothing else is left. Tells
/// whether the item was there.
pub(crate) fn take_item<K: Id, T: Id>(
    map: &mut SortedMap<K, SortedSet<T>>,
    key: &K,
    item: &T,
) -> (r: bool)
    requires
        old(map).wf(),
        sets_filled(old(map)@),
    ensures
        final(map).wf(),
        sets_filled(final(map)@),
        r == related(old(map)@, *key, *item),
        forall|k: K, t: T|
            #![trigger related(final(map)@, k, t)]
            related(final(map)@, k, t) <==> related(old(map)@, k, t) && !(k == *key && t == *item),
        forall|k: K| k != *key ==> (#[trigger] final(map)@.contains_key(k) <==> old(
            map,
        )@.contains_key(k)),
{
    let mut removed: bool = false;
    let mut emptied: bool = false;
    match map.get_mut(key) {
        Some(set) => {
            removed = set.remove(item);
            emptied = set.is_empty();
        },
        None => {},
    }
    proof {
        if !emptied && map@.contains_key(*key) {
            assert(exists|t: T| map@[*key]@.contains(t)) by {
                if forall|t: T| !map@[*key]@.contains(t) {
                    assert(map@[*key]@ =~= Set::<T>::empty());
                }
            }
        }
        assert forall|k: K, t: T|
            #![trigger related(map@, k, t)]
            related(map@, k, t) <==> related(old(map)@, k, t) && !(k == *key && t == *item) by {}
    }
    let ghost thinned = map@;
    if emptied {
        map.remove(key);
    }
    assert forall|k: K, t: T|
        #![trigger related(map@, k, t)]
        related(map@, k, t) <==> related(old(map)@, k, t) && !(k == *key && t == *item) by {
        assert(related(map@, k, t) <==> related(thinned, k, t));
    }
    removed
}

/// A relation between hashes and namespaces, stored from both sides.
pub struct HashIndex {
    by_hash: SortedMap<ContentHash, SortedSet<NamespaceId>>,
    by_namespace: SortedMap<NamespaceId, SortedSet<ContentHash>>,
}

impl View for HashIndex {
    type V = Pairs;

    closed spec fn view(&self) -> Pairs {
        Set::new(
            |pair: (ContentHash, NamespaceId)| related(self.by_hash@, pair.0, pair.1),
        )
    }
}

impl HashIndex {
    /// Both sides store the same pairs, and neither holds an empty set.
    pub closed spec fn wf(self) -> bool {
        &&& self.by_hash.wf()
        &&& self.by_namespace.wf()
        &&& sets_filled(self.by_hash@)
        &&& sets_filled(self.by_namespace@)
        &&& forall|hash: ContentHash, namespace: NamespaceId|
            #![trigger related(self.by_hash@, hash, namespace)]
            #![trigger related(self.by_namespace@, namespace, hash)]
            related(self.by_hash@, hash, namespace) <==> related(
                self.by_namespace@,
                namespace,
                hash,
            )
    }

    /// The empty relation.
    pub fn new() -> (r: Self)
        ensures
            r.wf(),
            r@ == Set::<(ContentHash, NamespaceId)>::empty(),
    {
        let r = HashIndex { by_hash: SortedMap::new(), by_namespace: SortedMap::new() };
        assert(r@ =~= Set::<(ContentHash, NamespaceId)>::empty());
        r
    }

    /// Adds a pair.
    pub fn insert(&mut self, hash: ContentHash, namespace: NamespaceId)
        requires
            old(self).wf(),
        ensures
            final(self).wf(),
            final(self)@ == old(self)@.insert((hash, namespace)),
    {
        add_item(&mut self.by_hash, hash, namespace);
        add_item(&mut self.by_namespace, namespace, hash);
        assert(self@ =~= old(self)@.insert((hash, namespace)));
    }

    /// Takes a pair out, and tells whether it was there.
    pub fn remove(&mut self, hash: ContentHash, namespace: &NamespaceId) -> (r: bool)
        requires
            old(self).wf(),
        ensures
            final(self).wf(),
            final(self)@ == old(self)@.remove((hash, *namespace)),
            r == old(self)@.contains((hash, *namespace)),
    {
        let removed = take_item(&mut self.by_hash, &hash, namespace);
        take_item(&mut self.by_namespace, namespace, &hash);
        assert(self@ =~= old(self)@.remove((hash, *namespace)));
        removed
    }

    /// Whether the pair is in the relation.
    pub fn contains(&self, hash: ContentHash, namespace: &NamespaceId) -> (r: bool)
        requires
            self.wf(),
        ensures
            r == self@.contains((hash, *namespace)),
    {
        assert(related(self.by_hash@, hash, *namespace) == self@.contains((hash, *namespace)));
        match self.by_namespace.get(namespace) {
            Some(hashes) => hashes.contains(&hash),
            None => false,
        }
    }

    /// Whether some namespace is related to the hash.
    pub fn contains_hash(&self, hash: &ContentHash) -> (r: bool)
        requires
            self.wf(),
        ensures
            r == has_hash(self@, *hash),
    {
        proof {
            if self.by_hash@.contains_key(*hash) {
                let namespace = choose|n: NamespaceId| self.by_hash@[*hash]@.contains(n);
                assert(self@.contains((*hash, namespace)));
            }
        }
        self.by_hash.contains_key(hash)
    }

    /// Whether some hash is related to the namespace.
    pub fn contains_namespace(&self, namespace: &NamespaceId) -> (r: bool)
        requires
            self.wf(),
        ensures
            r == has_namespace(self@, *namespace),
    {
        proof {
            if self.by_namespace@.contains_key(*namespace) {
                let hash = choose|h: ContentHash| self.by_namespace@[*namespace]@.contains(h);
                assert(related(self.by_namespace@, *namespace, hash));
                assert(self@.contains((hash, *namespace)));
            }
            assert forall|hash: ContentHash| #[trigger]
                self@.contains((hash, *namespace)) implies self.by_namespace@.contains_key(
                *namespace,
            ) by {
                assert(related(self.by_hash@, hash, *namespace));
            }
        }
        self.by_namespace.contains_key(namespace)
    }

    /// The hashes related to the namespace, each once.
    pub fn hashes_for_namespace(&self, namespace: &NamespaceId) -> (r: Vec<ContentHash>)
        requires
            self.wf(),
        ensures
            r@.no_duplicates(),
            r@.to_set() == hashes_of(self@, *namespace),
    {
        proof {
            assert forall|hash: ContentHash|
                self@.contains((hash, *namespace)) <==> #[trigger] related(
                    self.by_namespace@,
                    *namespace,
                    hash,
                ) by {}
        }
        match self.by_namespace.get(namespace) {
            Some(hashes) => {
                assert(hashes@ =~= hashes_of(self@, *namespace)) by {
                    assert forall|hash: ContentHash|
                        hashes@.contains(hash) <==> hashes_of(self@, *namespace).contains(hash) by {
                        assert(related(self.by_namespace@, *namespace, hash) == hashes@.contains(
                            hash,
                        ));
                    }
                }
                hashes.to_vec()
            },
            None => {
                let r: Vec<ContentHash> = Vec::new();
                assert(r@.to_set() =~= hashes_of(self@, *namespace)) by {
                    assert forall|hash: ContentHash| !hashes_of(self@, *namespace).contains(
                        hash,
                    ) by {
                        assert(!related(self.by_namespace@, *namespace, hash));
                    }
                }
                r
            },
        }
    }

    /// Takes every pair of a hash out. Tells which namespaces it was related to, and which of
    /// these have no hash left.
    pub fn remove_hash(&mut self, hash: &ContentHash) -> (r: RemovedQueuedHash)
        requires
            old(self).wf(),
        ensures
            final(self).wf(),
            final(self)@ == without_hash(old(self)@, *hash),
            r.describes(old(self)@, *hash),
    {
        let ghost pairs = self@;
        let namespaces: Vec<NamespaceId> = match self.by_hash.remove(hash) {
            Some(set) => set.to_vec(),
            None => Vec::new(),
        };
        proof {
            assert(namespaces@.to_set() =~= namespaces_of(pairs, *hash)) by {
                assert forall|n: NamespaceId|
                    namespaces@.to_set().contains(n) <==> pairs.contains((*hash, n)) by {
                    assert(pairs.contains((*hash, n)) == related(
                        old(self).by_hash@,
                        *hash,
                        n,
                    ));
                }
            }
            assert forall|h: ContentHash, n: NamespaceId|
                #![trigger related(self.by_hash@, h, n)]
                related(self.by_hash@, h, n) <==> related(old(self).by_hash@, h, n) && h
                    != *hash by {}
        }
        let ghost last = |n: NamespaceId| is_last_hash(pairs, *hash, n);
        let mut completed: Vec<NamespaceId> = Vec::new();
        let mut i: usize = 0;
        assert(completed@ =~= namespaces@.take(0).filter(last));
        while i < namespaces.len()
            invariant
                i <= namespaces@.len(),
                pairs == old(self)@,
                old(self).wf(),
                last == (|n: NamespaceId| is_last_hash(pairs, *hash, n)),
                namespaces@.no_duplicates(),
                namespaces@.to_set() == namespaces_of(pairs, *hash),
                self.by_hash.wf(),
                sets_filled(self.by_hash@),
                self.by_namespace.wf(),
                sets_filled(self.by_namespace@),
                forall|h: ContentHash, n: NamespaceId|
                    #![trigger related(self.by_hash@, h, n)]
                    related(self.by_hash@, h, n) <==> related(old(self).by_hash@, h, n) && h
                        != *hash,
                forall|h: ContentHash, n: NamespaceId|
                    #![trigger related(self.by_namespace@, n, h)]
                    related(self.by_namespace@, n, h) <==> related(
                        old(self).by_namespace@,
                        n,
                        h,
                    ) && !(h == *hash && namespaces@.take(i as int).contains(n)),
                completed@ == namespaces@.take(i as int).filter(last),
            decreases namespaces@.len() - i,
        {
            let namespace: NamespaceId = namespaces[i];
            take_item(&mut self.by_namespace, &namespace, hash);
            let ghost taken = namespaces@.take(i as int);
            let ghost taken_next = namespaces@.take(i + 1);
            proof {
                assert(taken_next =~= taken.push(namespace));
                assert forall|n: NamespaceId| taken_next.contains(n) <==> taken.contains(n) || n
                    == namespace by {
                    if taken.contains(n) {
                        let j = taken.index_of(n);
                        assert(taken_next[j] == n);
                    }
                    if n == namespace {
                        assert(taken_next[i as int] == n);
                    }
                }
                assert(namespaces@.contains(namespace));
                assert(namespaces_of(pairs, *hash).contains(namespace));
                assert(!taken.contains(namespace));
                assert(is_last_hash(pairs, *hash, namespace) <==>
                    !self.by_namespace@.contains_key(namespace)) by {
                    if self.by_namespace@.contains_key(namespace) {
                        let h = choose|h: ContentHash|
                            self.by_namespace@[namespace]@.contains(h);
                        assert(related(self.by_namespace@, namespace, h));
                        assert(h != *hash);
                        assert(related(old(self).by_hash@, h, namespace));
                        assert(pairs.contains((h, namespace)));
                    } else {
                        assert forall|h: ContentHash| #[trigger]
                            pairs.contains((h, namespace)) implies h == *hash by {
                            assert(related(old(self).by_hash@, h, namespace));
                            assert(related(old(self).by_namespace@, namespace, h));
                            assert(!related(self.by_namespace@, namespace, h));
                        }
                    }
                }
                lemma_filter_take(namespaces@, last, i as int);
            }
            if !self.by_namespace.contains_key(&namespace) {
                completed.push(namespace);
            }
            i = i + 1;
        }
        proof {
            assert(namespaces@.take(i as int) =~= namespaces@);
            assert forall|h: ContentHash, n: NamespaceId|
                related(self.by_hash@, h, n) <==> related(self.by_namespace@, n, h) by {
                assert(namespaces@.contains(n) == namespaces_of(pairs, *hash).contains(n));
                assert(pairs.contains((h, n)) == related(old(self).by_hash@, h, n));
            }
            assert(self@ =~= without_hash(pairs, *hash));
        }
        RemovedQueuedHash { namespaces, completed_namespaces: completed }
    }
}

/// What filtering one more item of a sequence adds to the result.
pub(crate) proof fn lemma_filter_take<T>(s: Seq<T>, pred: spec_fn(T) -> bool, i: int)
    requires
        0 <= i < s.len(),
    ensures
        s.take(i + 1).filter(pred) == if pred(s[i]) {
            s.take(i).filter(pred).push(s[i])
        } else {
            s.take(i).filter(pred)
        },
{
    assert(s.take(i + 1).drop_last() =~= s.take(i));
    reveal(Seq::filter);
}

/// What passes a filter is part of what was filtered, and no item turns up twice that did not
/// before.
pub(crate) proof fn lemma_filter_distinct<T>(s: Seq<T>, pred: spec_fn(T) -> bool)
    requires
        s.no_duplicates(),
    ensures
        s.filter(pred).no_duplicates(),
        forall|item: T| #[trigger]
            s.filter(pred).contains(item) <==> s.contains(item) && pred(item),
    decreases s.len(),
{
    reveal(Seq::filter);
    if s.len() > 0 {
        let front = s.drop_last();
        lemma_filter_distinct(front, pred);
        let kept = front.filter(pred);
        assert(!front.contains(s.last()));
        assert(!kept.contains(s.last()));
        assert forall|i: int| 0 <= i < kept.len() implies #[trigger] kept[i] != s.last() by {
            assert(kept.contains(kept[i]));
        }
        assert forall|item: T| #[trigger]
            s.filter(pred).contains(item) <==> s.contains(item) && pred(item) by {
            if s.contains(item) && item != s.last() {
                assert(front[s.index_of(item)] == item);
            }
            if s.filter(pred).contains(item) && item != s.last() {
                assert(kept[s.filter(pred).index_of(item)] == item);
                assert(front.contains(item));
                assert(s[front.index_of(item)] == item);
            }
            if item == s.last() {
                assert(s[s.len() - 1] == item);
                if pred(item) {
                    assert(s.filter(pred)[kept.len() as int] == item);
                } else if s.filter(pred).contains(item) {
                    assert(kept.contains(item));
                }
            } else if s.contains(item) && pred(item) {
                assert(kept.contains(item));
                assert(s.filter(pred)[kept.index_of(item)] == item);
            }
        }
    }
}

/// What became of a hash that is no longer queued.
#[derive(Debug)]
pub struct RemovedQueuedHash {
    /// The namespaces that the hash was queued for, each once.
    pub namespaces: Vec<NamespaceId>,
    /// Those of them for which nothing else was queued, in the same order.
    pub completed_namespaces: Vec<NamespaceId>,
}

impl RemovedQueuedHash {
    /// The two lists are right for a hash that is taken out of a relation.
    pub open spec fn describes(self, pairs: Pairs, hash: ContentHash) -> bool {
        &&& self.namespaces@.no_duplicates()
        &&& self.namespaces@.to_set() == namespaces_of(pairs, hash)
        &&& self.completed_namespaces@ == self.namespaces@.filter(
            |namespace: NamespaceId| is_last_hash(pairs, hash, namespace),
        )
    }
}

/// Content hashes which are wanted, by document, and for which a provider is still to be found.
pub struct MissingHashes {
    index: HashIndex,
}

impl View for MissingHashes {
    type V = Pairs;

    closed spec fn view(&self) -> Pairs {
        self.index@
    }
}

impl MissingHashes {
    /// The table is consistent.
    pub closed spec fn wf(self) -> bool {
        self.index.wf()
    }

    /// Nothing is missing.
    pub fn new() -> (r: Self)
        ensures
            r.wf(),
            r@ == Set::<(ContentHash, NamespaceId)>::empty(),
    {
        MissingHashes { index: HashIndex::new() }
    }

    /// The hash is missing for the namespace.
    pub fn insert(&mut self, hash: ContentHash, namespace: NamespaceId)
        requires
            old(self).wf(),
        ensures
            final(self).wf(),
            final(self)@ == old(self)@.insert((hash, namespace)),
    {
        self.index.insert(hash, namespace);
    }

    /// The hash is no longer missing for the namespace. Tells whether it was.
    pub fn remove(&mut self, hash: ContentHash, namespace: &NamespaceId) -> (r: bool)
        requires
            old(self).wf(),
        ensures
            final(self).wf(),
            final(self)@ == old(self)@.remove((hash, *namespace)),
            r == old(self)@.contains((hash, *namespace)),
    {
        self.index.remove(hash, namespace)
    }

    /// Whether the hash is missing for the namespace.
    pub fn contains(&self, hash: ContentHash, namespace: &NamespaceId) -> (r: bool)
        requires
            self.wf(),
        ensures
            r == self@.contains((hash, *namespace)),
    {
        self.index.contains(hash, namespace)
    }

    /// The hashes missing for the namespace, each once.
    pub fn hashes_for_namespace(&self, namespace: &NamespaceId) -> (r: Vec<ContentHash>)
        requires
            self.wf(),
        ensures
            r@.no_duplicates(),
            r@.to_set() == hashes_of(self@, *namespace),
    {
        self.index.hashes_for_namespace(namespace)
    }
}

/// Content hashes handed to the downloader, with the namespaces that wait for them.
pub struct QueuedHashes {
    index: HashIndex,
}

impl View for QueuedHashes {
    type V = Pairs;

    closed spec fn view(&self) -> Pairs {
        self.index@
    }
}

impl QueuedHashes {
    /// The table is consistent.
    pub closed spec fn wf(self) -> bool {
        self.index.wf()
    }

    /// Nothing is queued.
    pub fn new() -> (r: Self)
        ensures
            r.wf(),
            r@ == Set::<(ContentHash, NamespaceId)>::empty(),
    {
        QueuedHashes { index: HashIndex::new() }
    }

    /// The namespace waits for the hash.
    pub fn insert(&mut self, hash: ContentHash, namespace: NamespaceId)
        requires
            old(self).wf(),
        ensures
            final(self).wf(),
            final(self)@ == old(self)@.insert((hash, namespace)),
    {
        self.index.insert(hash, namespace);
    }

    /// The hash is no longer queued, for any namespace.
    pub fn remove_hash(&mut self, hash: &ContentHash) -> (r: RemovedQueuedHash)
        requires
            old(self).wf(),
        ensures
            final(self).wf(),
            final(self)@ == without_hash(old(self)@, *hash),
            r.describes(old(self)@, *hash),
    {
        self.index.remove_hash(hash)
    }

    /// Whether the hash is queued.
    pub fn contains_hash(&self, hash: &ContentHash) -> (r: bool)
        requires
            self.wf(),
        ensures
            r == has_hash(self@, *hash),
    {
        self.index.contains_hash(hash)
    }

    /// Whether the namespace waits for some hash.
    pub fn contains_namespace(&self, namespace: &NamespaceId) -> (r: bool)
        requires
            self.wf(),
        ensures
            r == has_namespace(self@, *namespace),
    {
        self.index.contains_namespace(namespace)
    }
}

/// Peers known to have a hash.
pub struct ProviderNodes {
    nodes: SortedMap<ContentHash, SortedSet<PublicKey>>,
}

impl View for ProviderNodes {
    type V = Set<(ContentHash, PublicKey)>;

    closed spec fn view(&self) -> Set<(ContentHash, PublicKey)> {
        Set::new(|pair: (ContentHash, PublicKey)| related(self.nodes@, pair.0, pair.1))
    }
}

/// The peers known to have a hash.
pub open spec fn providers_of(
    providers: Set<(ContentHash, PublicKey)>,
    hash: ContentHash,
) -> Set<PublicKey> {
    Set::new(|node: PublicKey| providers.contains((hash, node)))
}

impl ProviderNodes {
    /// The table is consistent.
    pub closed spec fn wf(self) -> bool {
        self.nodes.wf() && sets_filled(self.nodes@)
    }

    /// No peer is known to have anything.
    pub fn new() -> (r: Self)
        ensures
            r.wf(),
            r@ == Set::<(ContentHash, PublicKey)>::empty(),
    {
        let r = ProviderNodes { nodes: SortedMap::new() };
        assert(r@ =~= Set::<(ContentHash, PublicKey)>::empty());
        r
    }

    /// The peer has the hash.
    pub fn insert(&mut self, hash: ContentHash, node: PublicKey)
        requires
            old(self).wf(),
        ensures
            final(self).wf(),
            final(self)@ == old(self)@.insert((hash, node)),
    {
        add_item(&mut self.nodes, hash, node);
        assert(self@ =~= old(self)@.insert((hash, node)));
    }

    /// The peers known to have the hash, each once.
    pub fn find_providers(&self, hash: &ContentHash) -> (r: Vec<PublicKey>)
        requires
            self.wf(),
        ensures
            r@.no_duplicates(),
            r@.to_set() == providers_of(self@, *hash),
    {
        match self.nodes.get(hash) {
            Some(nodes) => {
                assert(nodes@ =~= providers_of(self@, *hash));
                nodes.to_vec()
            },
            None => {
                let r: Vec<PublicKey> = Vec::new();
                assert(r@.to_set() =~= providers_of(self@, *hash));
                r
            },
        }
    }
}

} // verus!

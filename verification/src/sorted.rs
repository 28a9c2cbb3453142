//! Maps and sets keyed by identifiers, kept as vectors in ascending order of the keys' bytes.

use vstd::prelude::*;

use crate::ids::Id;

verus! {

/// `a` comes before `b` in the lexicographic order of byte strings.
pub open spec fn before(a: Seq<u8>, b: Seq<u8>) -> bool {
    exists|i: int| #[trigger] first_differs(a, b, i) && a[i] < b[i]
}

/// `a` and `b` agree below `i` and differ at `i`.
pub open spec fn first_differs(a: Seq<u8>, b: Seq<u8>, i: int) -> bool {
    &&& 0 <= i < a.len()
    &&& i < b.len()
    &&& a[i] != b[i]
    &&& forall|j: int| 0 <= j < i ==> a[j] == b[j]
}

/// No byte string comes before itself, and of two only one comes before the other.
pub proof fn lemma_before_asymmetric(a: Seq<u8>, b: Seq<u8>)
    requires
        before(a, b),
    ensures
        !before(b, a),
        a != b,
{
    let i = choose|i: int| #[trigger] first_differs(a, b, i) && a[i] < b[i];
    if before(b, a) {
        let j = choose|j: int| #[trigger] first_differs(b, a, j) && b[j] < a[j];
        assert(i == j);
    }
}

/// The order is transitive.
pub proof fn lemma_before_transitive(a: Seq<u8>, b: Seq<u8>, c: Seq<u8>)
    requires
        before(a, b),
        before(b, c),
    ensures
        before(a, c),
{
    let i = choose|i: int| #[trigger] first_differs(a, b, i) && a[i] < b[i];
    let j = choose|j: int| #[trigger] first_differs(b, c, j) && b[j] < c[j];
    let k = if i <= j { i } else { j };
    assert(first_differs(a, c, k) && a[k] < c[k]);
}

/// Of two different identifiers' bytes one comes first.
pub proof fn lemma_before_total(a: Seq<u8>, b: Seq<u8>)
    requires
        a.len() == b.len(),
    ensures
        before(a, b) || before(b, a) || a == b,
{
    if a != b {
        assert(exists|i: int| 0 <= i < a.len() && a[i] != b[i]) by {
            if forall|i: int| 0 <= i < a.len() ==> a[i] == b[i] {
                assert(a =~= b);
            }
        }
        let w = choose|i: int| 0 <= i < a.len() && a[i] != b[i];
        lemma_first_difference(a, b, w);
        let i = choose|i: int| first_differs(a, b, i);
        assert(first_differs(b, a, i));
    }
}

proof fn lemma_first_difference(a: Seq<u8>, b: Seq<u8>, w: int)
    requires
        0 <= w < a.len(),
        w < b.len(),
        a[w] != b[w],
    ensures
        exists|i: int| first_differs(a, b, i),
    decreases w,
{
    if exists|j: int| 0 <= j < w && a[j] != b[j] {
        let j = choose|j: int| 0 <= j < w && a[j] != b[j];
        lemma_first_difference(a, b, j);
    } else {
        assert(first_differs(a, b, w));
    }
}

/// Whether `a` comes before `b` in the lexicographic order.
pub fn comes_before(a: &[u8; 32], b: &[u8; 32]) -> (r: bool)
    ensures
        r == before(a@, b@),
{
    let mut i: usize = 0;
    while i < 32
        invariant
            i <= 32,
            a@.len() == 32,
            b@.len() == 32,
            forall|j: int| 0 <= j < i ==> a@[j] == b@[j],
        decreases 32 - i,
    {
        if a[i] != b[i] {
            assert(first_differs(a@, b@, i as int));
            proof {
                if a@[i as int] > b@[i as int] {
                    assert(first_differs(b@, a@, i as int));
                    lemma_before_asymmetric(b@, a@);
                }
            }
            return a[i] < b[i];
        }
        i = i + 1;
    }
    assert(a@ =~= b@);
    false
}

/// A map from identifiers to values.
pub struct SortedMap<K: Id, V> {
    keys: Vec<K>,
    values: Vec<V>,
}

impl<K: Id, V> View for SortedMap<K, V> {
    type V = Map<K, V>;

    closed spec fn view(&self) -> Map<K, V> {
        paired(self.keys@, self.values@)
    }
}

/// The map that gives each key the value at its position.
spec fn paired<K, V>(keys: Seq<K>, values: Seq<V>) -> Map<K, V> {
    Map::new(|k: K| keys.contains(k), |k: K| values[keys.index_of(k)])
}

/// The keys stand in strictly ascending order.
pub open spec fn ascending<K: Id>(keys: Seq<K>) -> bool {
    forall|i: int, j: int|
        0 <= i < j < keys.len() ==> before(
            #[trigger] keys[i].bytes(),
            #[trigger] keys[j].bytes(),
        )
}

proof fn lemma_ascending_distinct<K: Id>(keys: Seq<K>)
    requires
        ascending(keys),
    ensures
        keys.no_duplicates(),
{
    assert forall|i: int, j: int| 0 <= i < j < keys.len() implies keys[i] != keys[j] by {
        lemma_before_asymmetric(keys[i].bytes(), keys[j].bytes());
    }
}

proof fn lemma_index_of<K: Id>(keys: Seq<K>, i: int)
    requires
        ascending(keys),
        0 <= i < keys.len(),
    ensures
        keys.index_of(keys[i]) == i,
        keys.contains(keys[i]),
{
    lemma_ascending_distinct(keys);
    let j = keys.index_of(keys[i]);
    assert(keys.contains(keys[i]));
    assert(0 <= j < keys.len() && keys[j] == keys[i]);
}

/// Where a key stands, or would have to be put.
spec fn is_slot<K: Id>(keys: Seq<K>, key: K, slot: int) -> bool {
    &&& 0 <= slot <= keys.len()
    &&& forall|j: int| 0 <= j < slot ==> before(#[trigger] keys[j].bytes(), key.bytes())
    &&& forall|j: int| slot <= j < keys.len() ==> !before(#[trigger] keys[j].bytes(), key.bytes())
}

proof fn lemma_slot<K: Id>(keys: Seq<K>, key: K, slot: int)
    requires
        ascending(keys),
        is_slot(keys, key, slot),
    ensures
        keys.contains(key) <==> slot < keys.len() && keys[slot].bytes() == key.bytes(),
        slot < keys.len() && keys[slot].bytes() == key.bytes() ==> keys[slot] == key
            && keys.index_of(key) == slot,
{
    if slot < keys.len() && keys[slot].bytes() == key.bytes() {
        keys[slot].bytes_identify(key);
        lemma_index_of(keys, slot);
    }
    if keys.contains(key) {
        let j = keys.index_of(key);
        assert(keys[j] == key);
        if j < slot {
            lemma_before_asymmetric(keys[j].bytes(), key.bytes());
        }
        if slot < j {
            assert(before(keys[slot].bytes(), keys[j].bytes()));
        }
    }
}

/// Putting a new key at its slot keeps the order.
proof fn lemma_insert_ascending<K: Id>(keys: Seq<K>, key: K, slot: int)
    requires
        ascending(keys),
        is_slot(keys, key, slot),
        !keys.contains(key),
    ensures
        ascending(keys.insert(slot, key)),
{
    let new = keys.insert(slot, key);
    assert forall|i: int, j: int| 0 <= i < j < new.len() implies before(
        #[trigger] new[i].bytes(),
        #[trigger] new[j].bytes(),
    ) by {
        if j == slot {
            assert(new[i] == keys[i]);
        } else if i == slot {
            assert(new[j] == keys[j - 1]);
            keys[j - 1].bytes_identify(key);
            key.bytes_identify(key);
            lemma_before_total(keys[j - 1].bytes(), key.bytes());
            assert(keys.contains(keys[j - 1]));
        } else {
            let a = if i < slot { i } else { i - 1 };
            let b = if j < slot { j } else { j - 1 };
            assert(new[i] == keys[a] && new[j] == keys[b]);
        }
    }
}

impl<K: Id, V> SortedMap<K, V> {
    /// The keys are in order, and each has one value.
    pub closed spec fn wf(self) -> bool {
        &&& ascending(self.keys@)
        &&& self.keys@.len() == self.values@.len()
    }

    /// The empty map.
    pub fn new() -> (r: Self)
        ensures
            r.wf(),
            r@ == Map::<K, V>::empty(),
    {
        let r = SortedMap { keys: Vec::new(), values: Vec::new() };
        assert(r@ =~= Map::<K, V>::empty());
        r
    }

    fn slot(&self, key: &K) -> (r: usize)
        requires
            self.wf(),
        ensures
            is_slot(self.keys@, *key, r as int),
    {
        let mut low: usize = 0;
        let mut high: usize = self.keys.len();
        while low < high
            invariant
                self.wf(),
                low <= high <= self.keys@.len(),
                forall|j: int|
                    0 <= j < low ==> before(#[trigger] self.keys@[j].bytes(), key.bytes()),
                forall|j: int|
                    high <= j < self.keys@.len() ==> !before(
                        #[trigger] self.keys@[j].bytes(),
                        key.bytes(),
                    ),
            decreases high - low,
        {
            let mid: usize = low + (high - low) / 2;
            if comes_before(self.keys[mid].raw(), key.raw()) {
                assert forall|j: int| 0 <= j < mid + 1 implies before(
                    #[trigger] self.keys@[j].bytes(),
                    key.bytes(),
                ) by {
                    if j < mid {
                        lemma_before_transitive(
                            self.keys@[j].bytes(),
                            self.keys@[mid as int].bytes(),
                            key.bytes(),
                        );
                    }
                }
                low = mid + 1;
            } else {
                assert forall|j: int| mid <= j < self.keys@.len() implies !before(
                    #[trigger] self.keys@[j].bytes(),
                    key.bytes(),
                ) by {
                    if mid < j && before(self.keys@[j].bytes(), key.bytes()) {
                        lemma_before_transitive(
                            self.keys@[mid as int].bytes(),
                            self.keys@[j].bytes(),
                            key.bytes(),
                        );
                    }
                }
                high = mid;
            }
        }
        low
    }

    /// The position of a key, if the map has it.
    fn position(&self, key: &K) -> (r: Option<usize>)
        requires
            self.wf(),
        ensures
            r is Some <==> self@.contains_key(*key),
            r matches Some(i) ==> {
                &&& i < self.keys@.len()
                &&& self.keys@[i as int] == *key
                &&& self@[*key] == self.values@[i as int]
            },
    {
        let slot = self.slot(key);
        proof {
            lemma_slot(self.keys@, *key, slot as int);
        }
        if slot < self.keys.len() && same_bytes(self.keys[slot].raw(), key.raw()) {
            Some(slot)
        } else {
            None
        }
    }

    /// Whether the map has the key.
    pub fn contains_key(&self, key: &K) -> (r: bool)
        requires
            self.wf(),
        ensures
            r == self@.contains_key(*key),
    {
        self.position(key).is_some()
    }

    /// The value of a key.
    pub fn get(&self, key: &K) -> (r: Option<&V>)
        requires
            self.wf(),
        ensures
            match r {
                Some(value) => self@.contains_key(*key) && *value == self@[*key],
                None => !self@.contains_key(*key),
            },
    {
        match self.position(key) {
            Some(i) => Some(&self.values[i]),
            None => None,
        }
    }

    /// The value of a key, to be changed in place.
    pub fn get_mut(&mut self, key: &K) -> (r: Option<&mut V>)
        requires
            old(self).wf(),
        ensures
            final(self).wf(),
            match r {
                Some(value) => {
                    &&& old(self)@.contains_key(*key)
                    &&& *value == old(self)@[*key]
                    &&& final(self)@ == old(self)@.insert(*key, *final(value))
                },
                None => !old(self)@.contains_key(*key) && final(self)@ == old(self)@,
            },
    {
        match self.position(key) {
            Some(i) => {
                proof {
                    lemma_index_of(self.keys@, i as int);
                    assert forall|value: V| true implies #[trigger] paired(
                        self.keys@,
                        self.values@.update(i as int, value),
                    ) == self@.insert(*key, value) by {
                        assert(paired(self.keys@, self.values@.update(i as int, value))
                            =~= self@.insert(*key, value)) by {
                            assert forall|k: K| self.keys@.contains(k) && k != *key implies
                                self.keys@.index_of(k) != i by {
                                assert(self.keys@[self.keys@.index_of(k)] == k);
                            }
                        }
                    }
                }
                Some(&mut self.values[i])
            },
            None => None,
        }
    }

    /// Gives a key a value, and returns the one it had.
    pub fn insert(&mut self, key: K, value: V) -> (r: Option<V>)
        requires
            old(self).wf(),
        ensures
            final(self).wf(),
            final(self)@ == old(self)@.insert(key, value),
            match r {
                Some(value) => old(self)@.contains_key(key) && value == old(self)@[key],
                None => !old(self)@.contains_key(key),
            },
    {
        let slot = self.slot(&key);
        proof {
            lemma_slot(self.keys@, key, slot as int);
        }
        if slot < self.keys.len() && same_bytes(self.keys[slot].raw(), key.raw()) {
            let ghost values = self.values@;
            let mut value = value;
            std::mem::swap(&mut value, &mut self.values[slot]);
            assert(self.values@ == values.update(slot as int, self.values@[slot as int]));
            assert(self@ =~= old(self)@.insert(key, self.values@[slot as int])) by {
                assert forall|k: K| self.keys@.contains(k) && k != key implies
                    self.keys@.index_of(k) != slot by {
                    assert(self.keys@[self.keys@.index_of(k)] == k);
                }
            }
            Some(value)
        } else {
            proof {
                lemma_insert_ascending(self.keys@, key, slot as int);
            }
            self.keys.insert(slot, key);
            self.values.insert(slot, value);
            proof {
                lemma_paired_insert(old(self).keys@, old(self).values@, slot as int, key, value);
            }
            None
        }
    }

    /// Takes a key out of the map, and returns the value it had.
    pub fn remove(&mut self, key: &K) -> (r: Option<V>)
        requires
            old(self).wf(),
        ensures
            final(self).wf(),
            final(self)@ == old(self)@.remove(*key),
            match r {
                Some(value) => old(self)@.contains_key(*key) && value == old(self)@[*key],
                None => !old(self)@.contains_key(*key),
            },
    {
        match self.position(key) {
            Some(i) => {
                self.keys.remove(i);
                let value = self.values.remove(i);
                proof {
                    let keys = old(self).keys@;
                    assert forall|a: int, b: int| 0 <= a < b < self.keys@.len() implies before(
                        #[trigger] self.keys@[a].bytes(),
                        #[trigger] self.keys@[b].bytes(),
                    ) by {
                        let a0 = if a < i { a } else { a + 1 };
                        let b0 = if b < i { b } else { b + 1 };
                        assert(self.keys@[a] == keys[a0] && self.keys@[b] == keys[b0]);
                    }
                    assert(keys =~= self.keys@.insert(i as int, *key));
                    assert(old(self).values@ =~= self.values@.insert(i as int, value));
                    lemma_ascending_distinct(keys);
                    assert(!self.keys@.contains(*key)) by {
                        if self.keys@.contains(*key) {
                            let j = self.keys@.index_of(*key);
                            assert(self.keys@[j] == keys[if j < i { j } else { j + 1 }]);
                        }
                    }
                    lemma_paired_insert(self.keys@, self.values@, i as int, *key, value);
                    assert(self@ =~= old(self)@.remove(*key));
                }
                Some(value)
            },
            None => {
                assert(self@ =~= old(self)@.remove(*key));
                None
            },
        }
    }

    /// Takes every key out of the map.
    pub fn clear(&mut self)
        ensures
            final(self).wf(),
            final(self)@ == Map::<K, V>::empty(),
    {
        self.keys.clear();
        self.values.clear();
        assert(self@ =~= Map::<K, V>::empty());
    }

    /// Whether the map has no key.
    pub fn is_empty(&self) -> (r: bool)
        requires
            self.wf(),
        ensures
            r == (self@ == Map::<K, V>::empty()),
    {
        proof {
            if self.keys@.len() == 0 {
                assert(self@ =~= Map::<K, V>::empty());
            } else {
                assert(self.keys@.contains(self.keys@[0]));
                assert(self@.contains_key(self.keys@[0]));
            }
        }
        self.keys.len() == 0
    }

    /// The keys, each once, in ascending order.
    pub fn keys(&self) -> (r: Vec<K>)
        requires
            self.wf(),
        ensures
            ascending(r@),
            r@.no_duplicates(),
            r@.to_set() == self@.dom(),
    {
        let mut r: Vec<K> = Vec::new();
        let mut i: usize = 0;
        while i < self.keys.len()
            invariant
                i <= self.keys@.len(),
                r@ == self.keys@.take(i as int),
            decreases self.keys@.len() - i,
        {
            r.push(self.keys[i]);
            i = i + 1;
            assert(r@ =~= self.keys@.take(i as int));
        }
        assert(r@ =~= self.keys@);
        proof {
            lemma_ascending_distinct(r@);
            assert(r@.to_set() =~= self@.dom());
        }
        r
    }
}

proof fn lemma_paired_insert<K: Id, V>(
    keys: Seq<K>,
    values: Seq<V>,
    slot: int,
    key: K,
    value: V,
)
    requires
        ascending(keys),
        ascending(keys.insert(slot, key)),
        keys.len() == values.len(),
        0 <= slot <= keys.len(),
        !keys.contains(key),
    ensures
        paired(keys.insert(slot, key), values.insert(slot, value)) == paired(keys, values).insert(
            key,
            value,
        ),
{
    let new_keys = keys.insert(slot, key);
    let new = paired(new_keys, values.insert(slot, value));
    let want = paired(keys, values).insert(key, value);
    assert(new_keys[slot] == key);
    lemma_index_of(new_keys, slot);
    assert forall|k: K| new_keys.contains(k) <==> keys.contains(k) || k == key by {
        if new_keys.contains(k) && k != key {
            let j = new_keys.index_of(k);
            assert(new_keys[j] == k);
            assert(keys[if j < slot { j } else { j - 1 }] == k);
        }
        if keys.contains(k) {
            let j = keys.index_of(k);
            assert(new_keys[if j < slot { j } else { j + 1 }] == k);
        }
    }
    assert forall|k: K| keys.contains(k) implies #[trigger] new[k] == want[k] by {
        let j = keys.index_of(k);
        let n = if j < slot { j } else { j + 1 };
        assert(keys[j] == k);
        assert(new_keys[n] == k);
        lemma_index_of(new_keys, n);
        lemma_index_of(keys, j);
    }
    assert(new =~= want);
}

/// A set of identifiers.
pub struct SortedSet<K: Id> {
    items: SortedMap<K, ()>,
}

impl<K: Id> View for SortedSet<K> {
    type V = Set<K>;

    closed spec fn view(&self) -> Set<K> {
        self.items@.dom()
    }
}

impl<K: Id> SortedSet<K> {
    /// The items are in order.
    pub closed spec fn wf(self) -> bool {
        self.items.wf()
    }

    /// The empty set.
    pub fn new() -> (r: Self)
        ensures
            r.wf(),
            r@ == Set::<K>::empty(),
    {
        let r = SortedSet { items: SortedMap::new() };
        assert(r@ =~= Set::<K>::empty());
        r
    }

    /// Adds an item, and tells whether it is new.
    pub fn insert(&mut self, item: K) -> (r: bool)
        requires
            old(self).wf(),
        ensures
            final(self).wf(),
            final(self)@ == old(self)@.insert(item),
            r == !old(self)@.contains(item),
    {
        let had = self.items.insert(item, ());
        assert(self@ =~= old(self)@.insert(item));
        had.is_none()
    }

    /// Takes an item out, and tells whether it was there.
    pub fn remove(&mut self, item: &K) -> (r: bool)
        requires
            old(self).wf(),
        ensures
            final(self).wf(),
            final(self)@ == old(self)@.remove(*item),
            r == old(self)@.contains(*item),
    {
        let had = self.items.remove(item);
        assert(self@ =~= old(self)@.remove(*item));
        had.is_some()
    }

    /// Whether the item is in the set.
    pub fn contains(&self, item: &K) -> (r: bool)
        requires
            self.wf(),
        ensures
            r == self@.contains(*item),
    {
        self.items.contains_key(item)
    }

    /// Whether the set has no item.
    pub fn is_empty(&self) -> (r: bool)
        requires
            self.wf(),
        ensures
            r == (self@ == Set::<K>::empty()),
    {
        proof {
            if self.items@ != Map::<K, ()>::empty() {
                if self@ =~= Set::<K>::empty() {
                    assert(self.items@ =~= Map::<K, ()>::empty());
                }
            } else {
                assert(self@ =~= Set::<K>::empty());
            }
        }
        self.items.is_empty()
    }

    /// The items, each once, in ascending order.
    pub fn to_vec(&self) -> (r: Vec<K>)
        requires
            self.wf(),
        ensures
            ascending(r@),
            r@.no_duplicates(),
            r@.to_set() == self@,
    {
        self.items.keys()
    }
}

fn same_bytes(a: &[u8; 32], b: &[u8; 32]) -> (r: bool)
    ensures
        r == (a@ == b@),
{
    let mut i: usize = 0;
    while i < 32
        invariant
            i <= 32,
            a@.len() == 32,
            b@.len() == 32,
            forall|j: int| 0 <= j < i ==> a@[j] == b@[j],
        decreases 32 - i,
    {
        if a[i] != b[i] {
            return false;
        }
        i = i + 1;
    }
    assert(a@ =~= b@);
    true
}

} // verus!

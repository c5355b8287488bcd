//! Maps and sets that keep their keys in ascending order.
//!
//! The harness reports the first failure it meets, so the order in which a
//! collection is walked is part of what its functions return.  These
//! collections hold their entries in one vector, strictly ascending by key.

use vstd::prelude::*;
use vstd::string::*;
use vstd::utf8::*;

verus! {

/// A key with a strict total order on its mathematical model.
pub trait Ordered: Sized {
    /// The model of the key.
    type Key;

    spec fn key(&self) -> Self::Key;

    /// The strict order of the keys.
    spec fn before(a: Self::Key, b: Self::Key) -> bool;

    /// No key stands before itself.
    proof fn lemma_irreflexive(a: Self::Key)
        ensures
            !Self::before(a, a),
    ;

    /// The order is transitive.
    proof fn lemma_transitive(a: Self::Key, b: Self::Key, c: Self::Key)
        requires
            Self::before(a, b),
            Self::before(b, c),
        ensures
            Self::before(a, c),
    ;

    /// Any two different keys are ordered.
    proof fn lemma_total(a: Self::Key, b: Self::Key)
        ensures
            a == b || Self::before(a, b) || Self::before(b, a),
    ;

    /// Whether this key stands before `other`.
    fn precedes(&self, other: &Self) -> (precedes: bool)
        ensures
            precedes == Self::before(self.key(), other.key()),
    ;
}

/// `key` is the least of `keys`.
pub open spec fn is_least<K: Ordered>(keys: Set<K::Key>, key: K::Key) -> bool {
    &&& keys.contains(key)
    &&& forall|other: K::Key| #[trigger] keys.contains(other) ==> !K::before(other, key)
}

/// A set of keys has at most one least key.
pub proof fn lemma_least_is_unique<K: Ordered>(keys: Set<K::Key>, a: K::Key, b: K::Key)
    requires
        is_least::<K>(keys, a),
        is_least::<K>(keys, b),
    ensures
        a == b,
{
    K::lemma_total(a, b);
}

/// The least of `keys`, where they are not empty and have one.
pub open spec fn least<K: Ordered>(keys: Set<K::Key>) -> K::Key {
    choose|key: K::Key| is_least::<K>(keys, key)
}

/// Of the keys of a walk, the first that was chosen is the least chosen one.
pub proof fn lemma_first_is_least<K: Ordered>(keys: Seq<K::Key>, chosen: Set<K::Key>, i: int)
    requires
        ascending::<K>(keys),
        0 <= i < keys.len(),
        chosen.contains(keys[i]),
        forall|j: int| 0 <= j < i ==> !chosen.contains(#[trigger] keys[j]),
        forall|key: K::Key| #[trigger] chosen.contains(key) ==> keys.contains(key),
    ensures
        is_least::<K>(chosen, keys[i]),
        least::<K>(chosen) == keys[i],
{
    assert forall|other: K::Key| #[trigger] chosen.contains(other) implies !K::before(
        other,
        keys[i],
    ) by {
        let j = choose|j: int| 0 <= j < keys.len() && keys[j] == other;
        K::lemma_irreflexive(keys[i]);
        if j > i && K::before(other, keys[i]) {
            assert(K::before(keys[i], keys[j]));
            K::lemma_transitive(keys[i], keys[j], keys[i]);
        }
    }
    assert(is_least::<K>(chosen, keys[i]));
    let other = least::<K>(chosen);
    assert(is_least::<K>(chosen, other));
    lemma_least_is_unique::<K>(chosen, keys[i], other);
}

/// The keys ascend strictly.
pub open spec fn ascending<K: Ordered>(keys: Seq<K::Key>) -> bool {
    forall|i: int, j: int| 0 <= i < j < keys.len() ==> K::before(#[trigger] keys[i], #[trigger] keys[j])
}

/// Ascending keys occur once each.
pub proof fn lemma_ascending_unique<K: Ordered>(keys: Seq<K::Key>, i: int, j: int)
    requires
        ascending::<K>(keys),
        0 <= i < keys.len(),
        0 <= j < keys.len(),
        keys[i] == keys[j],
    ensures
        i == j,
{
    K::lemma_irreflexive(keys[i]);
}

/// `keys` lists the items of `set` in ascending order.
pub open spec fn is_listing<K: Ordered>(keys: Seq<K::Key>, set: Set<K::Key>) -> bool {
    ascending::<K>(keys) && keys.to_set() == set
}

/// The items of a finite set in ascending order.
pub open spec fn listing<K: Ordered>(set: Set<K::Key>) -> Seq<K::Key> {
    choose|keys: Seq<K::Key>| is_listing::<K>(keys, set)
}

proof fn lemma_listings_agree<K: Ordered>(a: Seq<K::Key>, b: Seq<K::Key>)
    requires
        ascending::<K>(a),
        ascending::<K>(b),
        a.to_set() == b.to_set(),
    ensures
        a == b,
    decreases a.len(),
{
    if a.len() == 0 {
        if b.len() > 0 {
            assert(b.to_set().contains(b[0]));
            assert(a.to_set().contains(b[0]));
        }
        assert(a =~= b);
    } else if b.len() == 0 {
        assert(a.to_set().contains(a[0]));
        assert(b.to_set().contains(a[0]));
    } else {
        let x = a.last();
        let y = b.last();
        assert(a[a.len() - 1] == x && b[b.len() - 1] == y);
        assert(a.to_set().contains(x) && b.to_set().contains(y));
        assert(b.to_set().contains(x) && a.to_set().contains(y));
        let i = choose|i: int| 0 <= i < b.len() && b[i] == x;
        let j = choose|j: int| 0 <= j < a.len() && a[j] == y;
        if x != y {
            assert(K::before(b[i], b[b.len() - 1]));
            assert(K::before(a[j], a[a.len() - 1]));
            K::lemma_transitive(x, y, x);
            K::lemma_irreflexive(x);
        }
        let front_a = a.drop_last();
        let front_b = b.drop_last();
        assert forall|key: K::Key| #[trigger] front_a.to_set().contains(key)
            == front_b.to_set().contains(key) by {
            if front_a.contains(key) {
                let k = choose|k: int| 0 <= k < front_a.len() && front_a[k] == key;
                assert(a[k] == key);
                assert(a.to_set().contains(key));
                assert(b.to_set().contains(key));
                let m = choose|m: int| 0 <= m < b.len() && b[m] == key;
                if m == b.len() - 1 {
                    lemma_ascending_unique::<K>(a, k, a.len() - 1);
                }
                assert(front_b[m] == key);
            }
            if front_b.contains(key) {
                let k = choose|k: int| 0 <= k < front_b.len() && front_b[k] == key;
                assert(b[k] == key);
                assert(b.to_set().contains(key));
                assert(a.to_set().contains(key));
                let m = choose|m: int| 0 <= m < a.len() && a[m] == key;
                if m == a.len() - 1 {
                    lemma_ascending_unique::<K>(b, k, b.len() - 1);
                }
                assert(front_a[m] == key);
            }
        }
        assert(front_a.to_set() =~= front_b.to_set());
        assert forall|p: int, q: int| 0 <= p < q < front_a.len() implies K::before(
            #[trigger] front_a[p],
            #[trigger] front_a[q],
        ) by {
            assert(front_a[p] == a[p] && front_a[q] == a[q]);
        }
        assert forall|p: int, q: int| 0 <= p < q < front_b.len() implies K::before(
            #[trigger] front_b[p],
            #[trigger] front_b[q],
        ) by {
            assert(front_b[p] == b[p] && front_b[q] == b[q]);
        }
        lemma_listings_agree::<K>(front_a, front_b);
        assert(a =~= front_a.push(x));
        assert(b =~= front_b.push(y));
    }
}

/// A set has one listing.
pub proof fn lemma_listing_is_unique<K: Ordered>(keys: Seq<K::Key>, set: Set<K::Key>)
    requires
        is_listing::<K>(keys, set),
    ensures
        listing::<K>(set) == keys,
{
    let other = listing::<K>(set);
    assert(is_listing::<K>(other, set));
    lemma_listings_agree::<K>(other, keys);
}

/// Puts one more key among ascending ones.
proof fn lemma_one_more_listed<K: Ordered>(keys: Seq<K::Key>, key: K::Key) -> (more: Seq<K::Key>)
    requires
        ascending::<K>(keys),
        !keys.contains(key),
    ensures
        ascending::<K>(more),
        forall|other: K::Key| #[trigger]
            more.contains(other) <==> keys.contains(other) || other == key,
    decreases keys.len(),
{
    if keys.len() == 0 {
        let more = seq![key];
        assert(more[0] == key);
        more
    } else {
        let last = keys.last();
        let front = keys.drop_last();
        assert(keys[keys.len() - 1] == last);
        assert(keys =~= front.push(last));
        assert forall|other: K::Key| #[trigger]
            keys.contains(other) <==> front.contains(other) || other == last by {
            lemma_push_contains(front, last, other);
        }
        if K::before(last, key) {
            let more = keys.push(key);
            assert forall|i: int, j: int| 0 <= i < j < more.len() implies K::before(
                #[trigger] more[i],
                #[trigger] more[j],
            ) by {
                if j == keys.len() && i < keys.len() - 1 {
                    assert(K::before(keys[i], keys[keys.len() - 1]));
                    K::lemma_transitive(keys[i], last, key);
                }
            }
            assert forall|other: K::Key| #[trigger]
                more.contains(other) <==> keys.contains(other) || other == key by {
                lemma_push_contains(keys, key, other);
            }
            more
        } else {
            K::lemma_total(last, key);
            let inner = lemma_one_more_listed::<K>(front, key);
            let more = inner.push(last);
            assert forall|i: int, j: int| 0 <= i < j < more.len() implies K::before(
                #[trigger] more[i],
                #[trigger] more[j],
            ) by {
                if j == inner.len() {
                    assert(inner.contains(inner[i]));
                    if inner[i] != key {
                        let k = choose|k: int| 0 <= k < front.len() && front[k] == inner[i];
                        assert(keys[k] == inner[i]);
                    }
                } else {
                    assert(more[i] == inner[i] && more[j] == inner[j]);
                }
            }
            assert forall|other: K::Key| #[trigger]
                more.contains(other) <==> keys.contains(other) || other == key by {
                lemma_push_contains(inner, last, other);
            }
            more
        }
    }
}

proof fn lemma_push_contains<A>(items: Seq<A>, item: A, other: A)
    ensures
        items.push(item).contains(other) <==> items.contains(other) || other == item,
{
    let more = items.push(item);
    if items.contains(other) {
        let k = choose|k: int| 0 <= k < items.len() && items[k] == other;
        assert(more[k] == other);
    }
    if other == item {
        assert(more[items.len() as int] == other);
    }
}

proof fn lemma_some_listing<K: Ordered>(set: Set<K::Key>) -> (keys: Seq<K::Key>)
    requires
        set.finite(),
    ensures
        is_listing::<K>(keys, set),
    decreases set.len(),
{
    if set.len() == 0 {
        let keys = Seq::<K::Key>::empty();
        assert(keys.to_set() =~= set);
        keys
    } else {
        let key = set.choose();
        let rest = set.remove(key);
        let front = lemma_some_listing::<K>(rest);
        assert(front.to_set().contains(key) == front.contains(key));
        let keys = lemma_one_more_listed::<K>(front, key);
        assert forall|other: K::Key| #[trigger] keys.to_set().contains(other) == set.contains(
            other,
        ) by {
            assert(front.to_set().contains(other) == front.contains(other));
            assert(keys.contains(other) <==> front.contains(other) || other == key);
        }
        assert(keys.to_set() =~= set);
        keys
    }
}

/// Every finite set has a listing.
pub proof fn lemma_listing_exists<K: Ordered>(set: Set<K::Key>)
    requires
        set.finite(),
    ensures
        is_listing::<K>(listing::<K>(set), set),
{
    let keys = lemma_some_listing::<K>(set);
    assert(is_listing::<K>(keys, set));
}

/// Every finite set that holds anything has a least key.
pub proof fn lemma_least_exists<K: Ordered>(set: Set<K::Key>, key: K::Key)
    requires
        set.finite(),
        set.contains(key),
    ensures
        is_least::<K>(set, least::<K>(set)),
{
    lemma_listing_exists::<K>(set);
    let keys = listing::<K>(set);
    assert(keys.to_set().contains(key));
    assert(keys.to_set().contains(keys[0]));
    assert forall|other: K::Key| #[trigger] set.contains(other) implies keys.contains(other) by {
        assert(keys.to_set().contains(other));
    }
    lemma_first_is_least::<K>(keys, set, 0);
}

/// The order of byte strings: by the first byte that differs, and a proper
/// prefix first.
pub open spec fn bytes_before(a: Seq<u8>, b: Seq<u8>) -> bool
    decreases a.len(),
{
    if b.len() == 0 {
        false
    } else if a.len() == 0 {
        true
    } else if a[0] != b[0] {
        a[0] < b[0]
    } else {
        bytes_before(a.drop_first(), b.drop_first())
    }
}

proof fn lemma_bytes_irreflexive(a: Seq<u8>)
    ensures
        !bytes_before(a, a),
    decreases a.len(),
{
    if a.len() > 0 {
        lemma_bytes_irreflexive(a.drop_first());
    }
}

proof fn lemma_bytes_transitive(a: Seq<u8>, b: Seq<u8>, c: Seq<u8>)
    requires
        bytes_before(a, b),
        bytes_before(b, c),
    ensures
        bytes_before(a, c),
    decreases a.len(),
{
    if a.len() > 0 && b.len() > 0 && c.len() > 0 && a[0] == b[0] && b[0] == c[0] {
        lemma_bytes_transitive(a.drop_first(), b.drop_first(), c.drop_first());
    }
}

proof fn lemma_bytes_total(a: Seq<u8>, b: Seq<u8>)
    ensures
        a == b || bytes_before(a, b) || bytes_before(b, a),
    decreases a.len(),
{
    if a.len() == 0 {
        if b.len() == 0 {
            assert(a =~= b);
        }
    } else if b.len() > 0 && a[0] == b[0] {
        lemma_bytes_total(a.drop_first(), b.drop_first());
        if a.drop_first() == b.drop_first() {
            assert(a =~= seq![a[0]] + a.drop_first());
            assert(b =~= seq![b[0]] + b.drop_first());
        }
    }
}

/// Whether `a` stands before `b`.
pub fn bytes_precede(a: &[u8], b: &[u8]) -> (precedes: bool)
    ensures
        precedes == bytes_before(a@, b@),
{
    let mut i: usize = 0;
    assert(a@.skip(0) =~= a@);
    assert(b@.skip(0) =~= b@);
    while i < a.len() && i < b.len()
        invariant
            i <= a.len(),
            i <= b.len(),
            bytes_before(a@, b@) == bytes_before(a@.skip(i as int), b@.skip(i as int)),
        decreases a.len() - i,
    {
        if a[i] != b[i] {
            return a[i] < b[i];
        }
        assert(a@.skip(i as int).drop_first() =~= a@.skip(i + 1));
        assert(b@.skip(i as int).drop_first() =~= b@.skip(i + 1));
        i += 1;
    }
    i < b.len()
}

/// The order of texts: that of their UTF-8 encodings.
pub open spec fn text_before(a: Seq<char>, b: Seq<char>) -> bool {
    bytes_before(encode_utf8(a), encode_utf8(b))
}

impl Ordered for String {
    type Key = Seq<char>;

    open spec fn key(&self) -> Seq<char> {
        self@
    }

    open spec fn before(a: Seq<char>, b: Seq<char>) -> bool {
        text_before(a, b)
    }

    proof fn lemma_irreflexive(a: Seq<char>) {
        lemma_bytes_irreflexive(encode_utf8(a));
    }

    proof fn lemma_transitive(a: Seq<char>, b: Seq<char>, c: Seq<char>) {
        lemma_bytes_transitive(encode_utf8(a), encode_utf8(b), encode_utf8(c));
    }

    proof fn lemma_total(a: Seq<char>, b: Seq<char>) {
        crate::text::lemma_encoding_is_injective(a, b);
        lemma_bytes_total(encode_utf8(a), encode_utf8(b));
    }

    fn precedes(&self, other: &Self) -> (precedes: bool) {
        bytes_precede(self.as_str().as_bytes(), other.as_str().as_bytes())
    }
}

/// A map whose entries stand in ascending order of their keys.
#[derive(Debug)]
pub struct OrderedMap<K: Ordered, V> {
    entries: Vec<(K, V)>,
}

impl<K: Ordered, V> OrderedMap<K, V> {
    /// The keys in the order in which the map is walked.
    pub closed spec fn keys(&self) -> Seq<K::Key> {
        self.entries@.map_values(|entry: (K, V)| entry.0.key())
    }

    /// The values in the order of their keys.
    pub closed spec fn values(&self) -> Seq<V> {
        self.entries@.map_values(|entry: (K, V)| entry.1)
    }

    /// The keys ascend, and each has its value.
    pub open spec fn wf(&self) -> bool {
        &&& ascending::<K>(self.keys())
        &&& self.values().len() == self.keys().len()
    }
}

impl<K: Ordered, V> View for OrderedMap<K, V> {
    type V = Map<K::Key, V>;

    /// What the map holds.
    open spec fn view(&self) -> Map<K::Key, V> {
        Map::new(
            |key: K::Key| self.keys().contains(key),
            |key: K::Key| self.values()[self.keys().index_of(key)],
        )
    }
}

/// The entry at position `i` of the walk is what the map holds for its key.
pub proof fn lemma_entry<K: Ordered, V>(map: OrderedMap<K, V>, i: int)
    requires
        map.wf(),
        0 <= i < map.keys().len(),
    ensures
        map@.dom().contains(map.keys()[i]),
        map@[map.keys()[i]] == map.values()[i],
{
    let keys = map.keys();
    assert(keys.contains(keys[i]));
    let j = keys.index_of(keys[i]);
    assert(0 <= j < keys.len() && keys[j] == keys[i]);
    lemma_ascending_unique::<K>(keys, i, j);
}

/// A key that the map holds stands in its walk.
pub proof fn lemma_walk_holds<K: Ordered, V>(map: OrderedMap<K, V>, key: K::Key)
    requires
        map.wf(),
        map@.dom().contains(key),
    ensures
        map.keys().contains(key),
        0 <= map.keys().index_of(key) < map.keys().len(),
        map.keys()[map.keys().index_of(key)] == key,
{
}

/// What a map holds is finite, and the walk lists its keys.
pub proof fn lemma_walk_is_listing<K: Ordered, V>(map: OrderedMap<K, V>)
    requires
        map.wf(),
    ensures
        map@.dom().finite(),
        is_listing::<K>(map.keys(), map@.dom()),
        listing::<K>(map@.dom()) == map.keys(),
{
    assert(map.keys().to_set() =~= map@.dom());
    lemma_listing_is_unique::<K>(map.keys(), map@.dom());
}

impl<K: Ordered, V> OrderedMap<K, V> {
    /// The empty map.
    pub fn new() -> (map: Self)
        ensures
            map.wf(),
            map.keys() == Seq::<K::Key>::empty(),
            map@ == Map::<K::Key, V>::empty(),
    {
        let map = OrderedMap { entries: Vec::new() };
        assert(map.keys() =~= Seq::<K::Key>::empty());
        assert(map@ =~= Map::<K::Key, V>::empty());
        map
    }

    /// How many entries the map holds.
    pub fn len(&self) -> (length: usize)
        ensures
            length == self.keys().len(),
            length == self.values().len(),
    {
        self.entries.len()
    }

    /// The key at position `i` of the walk.
    pub fn key_at(&self, i: usize) -> (key: &K)
        requires
            i < self.keys().len(),
        ensures
            key.key() == self.keys()[i as int],
    {
        &self.entries[i].0
    }

    /// The value at position `i` of the walk.
    pub fn value_at(&self, i: usize) -> (value: &V)
        requires
            i < self.values().len(),
        ensures
            *value == self.values()[i as int],
    {
        &self.entries[i].1
    }

    /// The position of `key`, or where it would be inserted.
    fn position(&self, key: &K) -> (at: usize)
        requires
            self.wf(),
        ensures
            at <= self.keys().len(),
            forall|i: int| 0 <= i < at ==> K::before(#[trigger] self.keys()[i], key.key()),
            forall|i: int|
                at <= i < self.keys().len() ==> !K::before(#[trigger] self.keys()[i], key.key()),
            self.keys().contains(key.key()) == (at < self.keys().len() && self.keys()[at as int]
                == key.key()),
    {
        let mut at: usize = 0;
        while at < self.entries.len() && self.entries[at].0.precedes(key)
            invariant
                at <= self.entries.len(),
                forall|i: int| 0 <= i < at ==> K::before(#[trigger] self.keys()[i], key.key()),
            decreases self.entries.len() - at,
        {
            assert(self.keys()[at as int] == self.entries@[at as int].0.key());
            at += 1;
        }
        proof {
            let keys = self.keys();
            assert forall|i: int| at <= i < keys.len() implies !K::before(
                #[trigger] keys[i],
                key.key(),
            ) by {
                if i > at && K::before(keys[i], key.key()) {
                    assert(K::before(keys[at as int], keys[i]));
                    K::lemma_transitive(keys[at as int], keys[i], key.key());
                }
                assert(keys[at as int] == self.entries@[at as int].0.key());
            }
            if keys.contains(key.key()) {
                let i = choose|i: int| 0 <= i < keys.len() && keys[i] == key.key();
                K::lemma_irreflexive(key.key());
                assert(i >= at);
                if i > at {
                    assert(K::before(keys[at as int], keys[i]));
                }
            }
        }
        at
    }

    /// The value of `key`, if the map holds it.
    pub fn get(&self, key: &K) -> (value: Option<&V>)
        requires
            self.wf(),
        ensures
            match value {
                Some(value) => self@.dom().contains(key.key()) && *value == self@[key.key()],
                None => !self@.dom().contains(key.key()),
            },
    {
        let at = self.position(key);
        if at < self.entries.len() && !key.precedes(&self.entries[at].0) {
            proof {
                K::lemma_total(self.keys()[at as int], key.key());
                assert(self.keys()[at as int] == self.entries@[at as int].0.key());
                lemma_entry(*self, at as int);
            }
            Some(&self.entries[at].1)
        } else {
            proof {
                if at < self.entries.len() {
                    assert(self.keys()[at as int] == self.entries@[at as int].0.key());
                    K::lemma_irreflexive(key.key());
                }
            }
            None
        }
    }

    /// Whether the map holds `key`.
    pub fn contains_key(&self, key: &K) -> (found: bool)
        requires
            self.wf(),
        ensures
            found == self@.dom().contains(key.key()),
    {
        self.get(key).is_some()
    }

    /// Takes the entry of `key` out of the map.
    pub fn remove(&mut self, key: &K) -> (value: Option<V>)
        requires
            old(self).wf(),
        ensures
            final(self).wf(),
            final(self)@ == old(self)@.remove(key.key()),
            match value {
                Some(value) => old(self)@.dom().contains(key.key()) && value == old(
                    self,
                )@[key.key()],
                None => !old(self)@.dom().contains(key.key()),
            },
    {
        let ghost before = *self;
        let at = self.position(key);
        if at < self.entries.len() && !key.precedes(&self.entries[at].0) {
            proof {
                K::lemma_total(self.keys()[at as int], key.key());
                assert(self.keys()[at as int] == self.entries@[at as int].0.key());
                lemma_entry(*self, at as int);
            }
            let entry = self.entries.remove(at);
            proof {
                assert(self.keys() =~= before.keys().remove(at as int));
                assert(self.values() =~= before.values().remove(at as int));
                self.lemma_removed(before, at as int);
            }
            Some(entry.1)
        } else {
            proof {
                if at < self.entries.len() {
                    assert(self.keys()[at as int] == self.entries@[at as int].0.key());
                    K::lemma_irreflexive(key.key());
                }
                assert(self@ =~= before@.remove(key.key()));
            }
            None
        }
    }

    proof fn lemma_removed(self, before: Self, at: int)
        requires
            before.wf(),
            0 <= at < before.keys().len(),
            self.keys() == before.keys().remove(at),
            self.values() == before.values().remove(at),
        ensures
            self.wf(),
            self@ == before@.remove(before.keys()[at]),
    {
        let keys = self.keys();
        let gone = before.keys()[at];
        assert forall|i: int, j: int| 0 <= i < j < keys.len() implies K::before(
            #[trigger] keys[i],
            #[trigger] keys[j],
        ) by {
            let oi = if i < at { i } else { i + 1 };
            let oj = if j < at { j } else { j + 1 };
            assert(keys[i] == before.keys()[oi]);
            assert(keys[j] == before.keys()[oj]);
        }
        assert forall|k: K::Key| #[trigger] self@.dom().contains(k) == before@.remove(
            gone,
        ).dom().contains(k) by {
            if keys.contains(k) {
                let i = choose|i: int| 0 <= i < keys.len() && keys[i] == k;
                let oi = if i < at { i } else { i + 1 };
                assert(before.keys()[oi] == k);
                if k == gone {
                    lemma_ascending_unique::<K>(before.keys(), oi, at);
                }
            }
            if before.keys().contains(k) && k != gone {
                let i = choose|i: int| 0 <= i < before.keys().len() && before.keys()[i] == k;
                let ni = if i < at { i } else { i - 1 };
                assert(keys[ni] == k);
            }
        }
        assert forall|k: K::Key| #[trigger] self@.dom().contains(k) implies self@[k]
            == before@.remove(gone)[k] by {
            let i = choose|i: int| 0 <= i < keys.len() && keys[i] == k;
            let oi = if i < at { i } else { i + 1 };
            assert(before.keys()[oi] == k);
            lemma_entry(self, i);
            lemma_entry(before, oi);
        }
        assert(self@ =~= before@.remove(gone));
    }

    /// Puts `value` under `key`, in place of what the map held for it.
    pub fn insert(&mut self, key: K, value: V)
        requires
            old(self).wf(),
        ensures
            final(self).wf(),
            final(self)@ == old(self)@.insert(key.key(), value),
    {
        let ghost first = *self;
        let _ = self.remove(&key);
        let ghost before = *self;
        let at = self.position(&key);
        let ghost new_key = key.key();
        assert(!before@.dom().contains(new_key));
        self.entries.insert(at, (key, value));
        proof {
            assert(self.keys() =~= before.keys().insert(at as int, new_key));
            assert(self.values() =~= before.values().insert(at as int, value));
            let keys = self.keys();
            assert forall|i: int| at <= i < before.keys().len() implies K::before(
                new_key,
                #[trigger] before.keys()[i],
            ) by {
                K::lemma_total(new_key, before.keys()[i]);
                assert(before.keys().contains(before.keys()[i]));
            }
            assert forall|i: int, j: int| 0 <= i < j < keys.len() implies K::before(
                #[trigger] keys[i],
                #[trigger] keys[j],
            ) by {
                if i != at && j != at {
                    let oi = if i < at { i } else { i - 1 };
                    let oj = if j < at { j } else { j - 1 };
                    assert(keys[i] == before.keys()[oi]);
                    assert(keys[j] == before.keys()[oj]);
                } else if i == at {
                    assert(keys[j] == before.keys()[j - 1]);
                } else {
                    assert(keys[i] == before.keys()[i]);
                }
            }
            assert(self.wf());
            let target = before@.insert(new_key, value);
            assert forall|k: K::Key| #[trigger] self@.dom().contains(k) == target.dom().contains(
                k,
            ) by {
                if keys.contains(k) && k != new_key {
                    let i = choose|i: int| 0 <= i < keys.len() && keys[i] == k;
                    let oi = if i < at { i } else { i - 1 };
                    assert(before.keys()[oi] == k);
                }
                if before.keys().contains(k) {
                    let i = choose|i: int| 0 <= i < before.keys().len() && before.keys()[i] == k;
                    let ni = if i < at { i } else { i + 1 };
                    assert(keys[ni] == k);
                }
                if k == new_key {
                    assert(keys[at as int] == k);
                }
            }
            assert forall|k: K::Key| #[trigger] self@.dom().contains(k) implies self@[k]
                == target[k] by {
                let i = choose|i: int| 0 <= i < keys.len() && keys[i] == k;
                lemma_entry(*self, i);
                if i == at {
                    assert(k == new_key);
                } else {
                    let oi = if i < at { i } else { i - 1 };
                    assert(before.keys()[oi] == k);
                    lemma_entry(before, oi);
                }
            }
            assert(self@ =~= target);
            assert(target =~= first@.insert(new_key, value));
        }
    }
}

/// A set whose items stand in ascending order.
#[derive(Debug)]
pub struct OrderedSet<K: Ordered> {
    items: OrderedMap<K, ()>,
}

impl<K: Ordered> OrderedSet<K> {
    /// The items in the order in which the set is walked.
    pub closed spec fn keys(&self) -> Seq<K::Key> {
        self.items.keys()
    }

    /// The items ascend.
    pub closed spec fn wf(&self) -> bool {
        self.items.wf()
    }
}

impl<K: Ordered> View for OrderedSet<K> {
    type V = Set<K::Key>;

    /// What the set holds.
    open spec fn view(&self) -> Set<K::Key> {
        self.keys().to_set()
    }
}

impl<K: Ordered> OrderedSet<K> {
    /// The items of the walk are what the set holds, ascending strictly.
    pub proof fn lemma_ascending(&self)
        requires
            self.wf(),
        ensures
            ascending::<K>(self.keys()),
            self.keys().no_duplicates(),
            self@.finite(),
            self@.len() == self.keys().len(),
    {
        assert forall|i: int, j: int|
            0 <= i < self.keys().len() && 0 <= j < self.keys().len() && i != j implies self.keys()[i]
            != self.keys()[j] by {
            if self.keys()[i] == self.keys()[j] {
                lemma_ascending_unique::<K>(self.keys(), i, j);
            }
        }
        self.keys().unique_seq_to_set();
    }

    proof fn lemma_domain(&self)
        ensures
            self@ == self.items@.dom(),
    {
        assert(self@ =~= self.items@.dom());
    }

    /// The empty set.
    pub fn new() -> (set: Self)
        ensures
            set.wf(),
            set@ == Set::<K::Key>::empty(),
    {
        let set = OrderedSet { items: OrderedMap::new() };
        assert(set@ =~= Set::<K::Key>::empty());
        set
    }

    /// How many items the set holds.
    pub fn len(&self) -> (length: usize)
        ensures
            length == self.keys().len(),
    {
        self.items.len()
    }

    /// The item at position `i` of the walk.
    pub fn at(&self, i: usize) -> (item: &K)
        requires
            i < self.keys().len(),
        ensures
            item.key() == self.keys()[i as int],
            self@.contains(item.key()),
    {
        self.items.key_at(i)
    }

    /// Whether the set holds `item`.
    pub fn contains(&self, item: &K) -> (found: bool)
        requires
            self.wf(),
        ensures
            found == self@.contains(item.key()),
    {
        proof {
            self.lemma_domain();
        }
        self.items.contains_key(item)
    }

    /// Adds `item` to the set.
    pub fn insert(&mut self, item: K)
        requires
            old(self).wf(),
        ensures
            final(self).wf(),
            final(self)@ == old(self)@.insert(item.key()),
    {
        let ghost before = *self;
        let ghost key = item.key();
        proof {
            self.lemma_domain();
        }
        self.items.insert(item, ());
        proof {
            self.lemma_domain();
            assert(self@ =~= before@.insert(key));
        }
    }
}

/// A copy of a set of texts.
pub fn copy_texts(set: &OrderedSet<String>) -> (copy: OrderedSet<String>)
    requires
        set.wf(),
    ensures
        copy.wf(),
        copy@ == set@,
{
    let mut copy: OrderedSet<String> = OrderedSet::new();
    let mut i: usize = 0;
    assert(set.keys().take(0).to_set() =~= Set::<Seq<char>>::empty());
    while i < set.len()
        invariant
            i <= set.keys().len(),
            copy.wf(),
            copy@ == set.keys().take(i as int).to_set(),
        decreases set.keys().len() - i,
    {
        let item = set.at(i);
        copy.insert(item.clone());
        proof {
            let keys = set.keys();
            assert(keys.take(i + 1) =~= keys.take(i as int).push(keys[i as int]));
            keys.take(i as int).lemma_push_to_set_commute(keys[i as int]);
        }
        i += 1;
    }
    assert(set.keys().take(i as int) =~= set.keys());
    copy
}

/// The keys of a list of items.
pub open spec fn keys_of<K: Ordered>(items: Seq<K>) -> Seq<K::Key> {
    items.map_values(|item: K| item.key())
}

/// No key stands before one that precedes it in the list.
pub open spec fn in_order<K: Ordered>(keys: Seq<K::Key>) -> bool {
    forall|i: int, j: int|
        0 <= i < j < keys.len() ==> !K::before(#[trigger] keys[j], #[trigger] keys[i])
}

/// Puts `item` into a list in order, behind its equals.
fn insert_in_order<K: Ordered>(list: &mut Vec<K>, item: K)
    requires
        in_order::<K>(keys_of(old(list)@)),
    ensures
        in_order::<K>(keys_of(final(list)@)),
        keys_of(final(list)@).to_multiset() == keys_of(old(list)@).to_multiset().insert(item.key()),
{
    let ghost before = list@;
    let ghost keys = keys_of(before);
    let ghost key = item.key();
    let mut at: usize = 0;
    while at < list.len() && !item.precedes(&list[at])
        invariant
            at <= list.len(),
            list@ == before,
            keys == keys_of(before),
            key == item.key(),
            forall|k: int| 0 <= k < at ==> !K::before(key, #[trigger] keys[k]),
        decreases list.len() - at,
    {
        assert(keys[at as int] == before[at as int].key());
        at += 1;
    }
    list.insert(at, item);
    proof {
        let after = keys_of(list@);
        assert(after =~= keys.insert(at as int, key));
        after.to_multiset_ensures();
        assert(after.remove(at as int) =~= keys);
        assert(after[at as int] == key);
        assert(after.contains(key));
        assert(after.to_multiset() =~= keys.to_multiset().insert(key));
        assert forall|i: int, j: int| 0 <= i < j < after.len() implies !K::before(
            #[trigger] after[j],
            #[trigger] after[i],
        ) by {
            if i != at && j != at {
                let oi = if i < at { i } else { i - 1 };
                let oj = if j < at { j } else { j - 1 };
                assert(after[i] == keys[oi] && after[j] == keys[oj]);
            } else if j == at {
                assert(after[i] == keys[i]);
            } else {
                assert(after[j] == keys[j - 1]);
                assert(keys[at as int] == before[at as int].key());
                assert(K::before(key, keys[at as int]));
                if K::before(keys[j - 1], key) {
                    K::lemma_transitive(keys[j - 1], key, keys[at as int]);
                    if j - 1 > at {
                        assert(!K::before(keys[j - 1], keys[at as int]));
                    } else {
                        K::lemma_irreflexive(keys[at as int]);
                    }
                }
            }
        }
    }
}

/// The items of a list, in order.
pub fn sort_items<K: Ordered>(items: Vec<K>) -> (list: Vec<K>)
    ensures
        in_order::<K>(keys_of(list@)),
        keys_of(list@).to_multiset() == keys_of(items@).to_multiset(),
{
    let ghost all = keys_of(items@);
    let mut rest = items;
    let mut list: Vec<K> = Vec::new();
    proof {
        assert(keys_of(list@) =~= Seq::<K::Key>::empty());
        assert(all.take(0) =~= Seq::<K::Key>::empty());
    }
    let ghost mut i: int = 0;
    while rest.len() > 0
        invariant
            0 <= i <= all.len(),
            keys_of(rest@) == all.skip(i),
            in_order::<K>(keys_of(list@)),
            keys_of(list@).to_multiset() == all.take(i).to_multiset(),
        decreases rest.len(),
    {
        let ghost old_rest = rest@;
        let item = rest.remove(0);
        proof {
            assert(keys_of(old_rest).len() == all.len() - i);
            assert(item.key() == keys_of(old_rest)[0]);
            assert(all.skip(i)[0] == all[i]);
            assert(keys_of(rest@) =~= keys_of(old_rest).skip(1));
            assert(keys_of(rest@) =~= all.skip(i + 1));
            assert(all.take(i + 1) =~= all.take(i).push(all[i]));
            all.take(i).to_multiset_ensures();
            assert(all.take(i).push(all[i]).to_multiset() =~= all.take(i).to_multiset().insert(
                all[i],
            ));
        }
        insert_in_order(&mut list, item);
        proof {
            i = i + 1;
        }
    }
    assert(all.take(i) =~= all) by {
        assert(all.skip(i).len() == 0);
    }
    list
}

/// Byte strings are ordered by what follows their common beginning: by the
/// first byte that differs, and a proper beginning stands first.
pub proof fn lemma_order_of_bytes(common: Seq<u8>, a: Seq<u8>, b: Seq<u8>)
    requires
        a.len() > 0 && b.len() > 0 ==> a[0] != b[0],
    ensures
        bytes_before(common + a, common + b) <==> b.len() > 0 && (a.len() == 0 || a[0] < b[0]),
    decreases common.len(),
{
    if common.len() == 0 {
        assert(common + a =~= a);
        assert(common + b =~= b);
    } else {
        let rest = common.drop_first();
        assert((common + a).drop_first() =~= rest + a);
        assert((common + b).drop_first() =~= rest + b);
        assert((common + a)[0] == common[0] && (common + b)[0] == common[0]);
        lemma_order_of_bytes(rest, a, b);
    }
}

} // verus!

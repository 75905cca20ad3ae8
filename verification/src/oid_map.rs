//! A map from object identities to numbers, kept sorted by identity.

use crate::object::ObjectId;
use vstd::prelude::*;

verus! {

/// Numbers indexed by object identity.
pub struct OidMap {
    entries: Vec<(ObjectId, u64)>,
}

/// Identities strictly increase.
pub open spec fn strictly_sorted(entries: Seq<(ObjectId, u64)>) -> bool {
    forall|i: int, j: int|
        #![trigger entries[i], entries[j]]
        0 <= i < j < entries.len() ==> entries[i].0.spec_before(entries[j].0)
}

/// Some entry has the identity `key`.
pub open spec fn has_key(entries: Seq<(ObjectId, u64)>, key: ObjectId) -> bool {
    exists|i: int| 0 <= i < entries.len() && #[trigger] entries[i].0 == key
}

/// The map that a list of entries spells.
pub open spec fn entries_map(entries: Seq<(ObjectId, u64)>) -> Map<ObjectId, u64> {
    Map::new(
        |key: ObjectId| has_key(entries, key),
        |key: ObjectId|
            entries[choose|i: int| 0 <= i < entries.len() && #[trigger] entries[i].0 == key].1,
    )
}

impl View for OidMap {
    type V = Map<ObjectId, u64>;

    closed spec fn view(&self) -> Map<ObjectId, u64> {
        entries_map(self.entries@)
    }
}

impl OidMap {
    #[verifier::type_invariant]
    spec fn sorted(self) -> bool {
        strictly_sorted(self.entries@)
    }

    /// Create an empty map.
    pub fn new() -> (map: OidMap)
        ensures
            map@ == Map::<ObjectId, u64>::empty(),
    {
        let map = OidMap { entries: Vec::new() };
        assert(map@ =~= Map::<ObjectId, u64>::empty());
        map
    }

    /// Find the position of `key`, or the position where it belongs.
    fn position(&self, key: ObjectId) -> (found: (usize, bool))
        ensures
            found.0 <= self.entries@.len(),
            found.1 ==> found.0 < self.entries@.len() && self.entries@[found.0 as int].0 == key,
            !found.1 ==> !has_key(self.entries@, key),
            forall|i: int| 0 <= i < found.0 ==> (#[trigger] self.entries@[i]).0.spec_before(key),
            !found.1 ==> forall|i: int|
                found.0 <= i < self.entries@.len() ==> key.spec_before(
                    (#[trigger] self.entries@[i]).0,
                ),
    {
        proof {
            use_type_invariant(self);
        }
        let mut low: usize = 0;
        let mut high: usize = self.entries.len();
        while low < high
            invariant
                low <= high <= self.entries@.len(),
                strictly_sorted(self.entries@),
                forall|i: int| 0 <= i < low ==> (#[trigger] self.entries@[i]).0.spec_before(key),
                forall|i: int|
                    high <= i < self.entries@.len() ==> key.spec_before(
                        (#[trigger] self.entries@[i]).0,
                    ),
            decreases high - low,
        {
            let middle: usize = low + (high - low) / 2;
            let candidate: ObjectId = self.entries[middle].0;
            if candidate == key {
                return (middle, true);
            }
            if candidate.before(key) {
                low = middle + 1;
            } else {
                high = middle;
            }
        }
        (low, false)
    }

    /// Return the number stored for `key`.
    pub fn get(&self, key: ObjectId) -> (value: Option<u64>)
        ensures
            value is Some <==> self@.dom().contains(key),
            value is Some ==> value->0 == self@[key],
    {
        let (at, found) = self.position(key);
        if found {
            proof {
                use_type_invariant(self);
                lemma_entry_value(self.entries@, at as int);
            }
            Some(self.entries[at].1)
        } else {
            None
        }
    }

    /// Return whether `key` has a number.
    pub fn contains(&self, key: ObjectId) -> (found: bool)
        ensures
            found == self@.dom().contains(key),
    {
        self.get(key).is_some()
    }

    /// Return how many identities have a number.
    pub fn len(&self) -> (count: usize)
        ensures
            count == self@.dom().len(),
            self@.dom().finite(),
    {
        proof {
            use_type_invariant(self);
            lemma_entries_count(self.entries@);
        }
        self.entries.len()
    }

    /// Store `value` for `key` unless `key` already has a number; return whether it was stored.
    pub fn insert_new(&mut self, key: ObjectId, value: u64) -> (stored: bool)
        ensures
            stored == !old(self)@.dom().contains(key),
            stored ==> final(self)@ == old(self)@.insert(key, value),
            !stored ==> final(self)@ == old(self)@,
    {
        let (at, found) = self.position(key);
        if found {
            return false;
        }
        proof {
            use_type_invariant(&*self);
        }
        let ghost before = self.entries@;
        let mut entries: Vec<(ObjectId, u64)> = Vec::new();
        std::mem::swap(&mut entries, &mut self.entries);
        entries.insert(at, (key, value));
        proof {
            lemma_insert(before, at as int, key, value);
        }
        self.entries = entries;
        true
    }

    /// Store `value` for `key`, replacing any earlier number.
    pub fn insert(&mut self, key: ObjectId, value: u64)
        ensures
            final(self)@ == old(self)@.insert(key, value),
    {
        let (at, found) = self.position(key);
        proof {
            use_type_invariant(&*self);
        }
        if !found {
            let _stored = self.insert_new(key, value);
            return;
        }
        let ghost before = self.entries@;
        let ghost map_before = self@;
        let mut entries: Vec<(ObjectId, u64)> = Vec::new();
        std::mem::swap(&mut entries, &mut self.entries);
        entries[at] = (key, value);
        proof {
            let after = entries@;
            assert forall|i: int, j: int|
                #![trigger after[i], after[j]]
                0 <= i < j < after.len() implies after[i].0.spec_before(after[j].0) by {
                assert(before[i].0.spec_before(before[j].0));
            }
            assert forall|k: ObjectId| has_key(after, k) <==> has_key(before, k) by {
                if has_key(after, k) {
                    let i = choose|i: int| 0 <= i < after.len() && #[trigger] after[i].0 == k;
                    assert(before[i].0 == k);
                }
                if has_key(before, k) {
                    let i = choose|i: int| 0 <= i < before.len() && #[trigger] before[i].0 == k;
                    assert(after[i].0 == k);
                }
            }
            assert(has_key(before, key)) by {
                assert(before[at as int].0 == key);
            }
            assert(entries_map(after) =~= map_before.insert(key, value)) by {
                assert forall|k: ObjectId| has_key(after, k) implies entries_map(after)[k]
                    == map_before.insert(key, value)[k] by {
                    let i = choose|i: int| 0 <= i < after.len() && #[trigger] after[i].0 == k;
                    lemma_entry_value(after, i);
                    if i != at {
                        assert(before[i].0 == k);
                        lemma_entry_value(before, i);
                        lemma_entry_value(before, at as int);
                        if k == key {
                            if i < at {
                                assert(before[i].0.spec_before(before[at as int].0));
                            } else {
                                assert(before[at as int].0.spec_before(before[i].0));
                            }
                            crate::object::lemma_id_order_total(k, key);
                        }
                    }
                }
            }
        }
        self.entries = entries;
    }

    /// Return the identities in order.
    pub fn keys(&self) -> (keys: Vec<ObjectId>)
        ensures
            keys@.to_set() == self@.dom(),
            keys@.no_duplicates(),
            forall|i: int, j: int|
                #![trigger keys@[i], keys@[j]]
                0 <= i < j < keys@.len() ==> keys@[i].spec_before(keys@[j]),
    {
        proof {
            use_type_invariant(self);
        }
        let mut keys: Vec<ObjectId> = Vec::new();
        let mut at: usize = 0;
        while at < self.entries.len()
            invariant
                at <= self.entries@.len(),
                strictly_sorted(self.entries@),
                keys@.len() == at,
                forall|i: int| 0 <= i < at ==> #[trigger] keys@[i] == self.entries@[i].0,
            decreases self.entries.len() - at,
        {
            keys.push(self.entries[at].0);
            at = at + 1;
        }
        proof {
            assert forall|i: int, j: int|
                #![trigger keys@[i], keys@[j]]
                0 <= i < j < keys@.len() implies keys@[i].spec_before(keys@[j]) by {
                assert(self.entries@[i].0.spec_before(self.entries@[j].0));
            }
            assert(keys@.to_set() =~= self@.dom()) by {
                assert forall|key: ObjectId| self@.dom().contains(key) implies keys@.contains(
                    key,
                ) by {
                    let i = choose|i: int|
                        0 <= i < self.entries@.len() && #[trigger] self.entries@[i].0 == key;
                    assert(keys@[i] == key);
                }
                assert forall|key: ObjectId| keys@.contains(key) implies self@.dom().contains(
                    key,
                ) by {
                    let i = choose|i: int| 0 <= i < keys@.len() && keys@[i] == key;
                    assert(self.entries@[i].0 == key);
                }
            }
        }
        keys
    }
}

/// In a sorted list the map gives each entry's own number.
proof fn lemma_entry_value(entries: Seq<(ObjectId, u64)>, at: int)
    requires
        strictly_sorted(entries),
        0 <= at < entries.len(),
    ensures
        entries_map(entries).dom().contains(entries[at].0),
        entries_map(entries)[entries[at].0] == entries[at].1,
{
    let key = entries[at].0;
    assert(has_key(entries, key));
    let chosen = choose|i: int| 0 <= i < entries.len() && #[trigger] entries[i].0 == key;
    assert(entries[chosen].0 == key);
    assert(chosen == at);
}

/// Inserting at the right position keeps the order and adds one pair to the map.
proof fn lemma_insert(entries: Seq<(ObjectId, u64)>, at: int, key: ObjectId, value: u64)
    requires
        strictly_sorted(entries),
        0 <= at <= entries.len(),
        forall|i: int| 0 <= i < at ==> (#[trigger] entries[i]).0.spec_before(key),
        forall|i: int| at <= i < entries.len() ==> key.spec_before((#[trigger] entries[i]).0),
    ensures
        strictly_sorted(entries.insert(at, (key, value))),
        entries_map(entries.insert(at, (key, value))) == entries_map(entries).insert(key, value),
{
    let after = entries.insert(at, (key, value));
    assert forall|i: int, j: int|
        #![trigger after[i], after[j]]
        0 <= i < j < after.len() implies after[i].0.spec_before(after[j].0) by {
        if i < at && j > at {
            assert(entries[i].0.spec_before(entries[j - 1].0));
        } else if i > at {
            assert(entries[i - 1].0.spec_before(entries[j - 1].0));
        } else if j < at {
            assert(entries[i].0.spec_before(entries[j].0));
        } else if i == at {
            assert(key.spec_before(entries[j - 1].0));
        } else {
            assert(entries[i].0.spec_before(key));
        }
    }
    let left = entries_map(after);
    let right = entries_map(entries).insert(key, value);
    assert forall|k: ObjectId| left.dom().contains(k) <==> right.dom().contains(k) by {
        if has_key(after, k) {
            let i = choose|i: int| 0 <= i < after.len() && #[trigger] after[i].0 == k;
            if i < at {
                assert(entries[i].0 == k);
            } else if i > at {
                assert(entries[i - 1].0 == k);
            }
        }
        if has_key(entries, k) {
            let i = choose|i: int| 0 <= i < entries.len() && #[trigger] entries[i].0 == k;
            if i < at {
                assert(after[i].0 == k);
            } else {
                assert(after[i + 1].0 == k);
            }
        }
        assert(after[at].0 == key);
    }
    assert forall|k: ObjectId| left.dom().contains(k) implies left[k] == right[k] by {
        let i = choose|i: int| 0 <= i < after.len() && #[trigger] after[i].0 == k;
        lemma_entry_value(after, i);
        if i < at {
            lemma_entry_value(entries, i);
        } else if i > at {
            lemma_entry_value(entries, i - 1);
        }
    }
    assert(left =~= right);
}

/// A sorted list has as many entries as its map has identities.
proof fn lemma_entries_count(entries: Seq<(ObjectId, u64)>)
    requires
        strictly_sorted(entries),
    ensures
        entries_map(entries).dom().finite(),
        entries_map(entries).dom().len() == entries.len(),
    decreases entries.len(),
{
    let domain = entries_map(entries).dom();
    if entries.len() == 0 {
        assert(domain =~= Set::<ObjectId>::empty());
    } else {
        let shorter = entries.drop_last();
        lemma_entries_count(shorter);
        let key = entries.last().0;
        assert(domain =~= entries_map(shorter).dom().insert(key)) by {
            assert forall|k: ObjectId| domain.contains(k) <==> entries_map(shorter).dom().insert(
                key,
            ).contains(k) by {
                if has_key(entries, k) {
                    let i = choose|i: int| 0 <= i < entries.len() && #[trigger] entries[i].0 == k;
                    if i < shorter.len() {
                        assert(shorter[i].0 == k);
                    }
                }
                if has_key(shorter, k) {
                    let i = choose|i: int| 0 <= i < shorter.len() && #[trigger] shorter[i].0 == k;
                    assert(entries[i].0 == k);
                }
                assert(entries[entries.len() - 1].0 == key);
            }
        }
        assert(!entries_map(shorter).dom().contains(key)) by {
            if has_key(shorter, key) {
                let i = choose|i: int| 0 <= i < shorter.len() && #[trigger] shorter[i].0 == key;
                assert(entries[i].0.spec_before(entries[entries.len() - 1].0));
            }
        }
    }
}

} // verus!

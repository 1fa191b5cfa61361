//! A bounded cache that forgets what was used longest ago.
//!
//! The cache is a list of slots, most recently used first. A lookup that
//! hits moves its slot to the front; an insertion puts its slot at the
//! front and, where the cache is over its capacity, drops slots from the
//! back.

use crate::text::bytes_eq;
use vstd::prelude::*;

verus! {

/// Whether a slot of `slots` has the key `key`.
pub open spec fn has_key<V>(slots: Seq<(Seq<u8>, V)>, key: Seq<u8>) -> bool {
    exists|i: int| 0 <= i < slots.len() && (#[trigger] slots[i]).0 == key
}

/// A position in `slots` of a slot with the key `key`.
pub open spec fn index_of_key<V>(slots: Seq<(Seq<u8>, V)>, key: Seq<u8>) -> int {
    choose|i: int| 0 <= i < slots.len() && (#[trigger] slots[i]).0 == key
}

/// Whether no two slots have the same key.
pub open spec fn keys_distinct<V>(slots: Seq<(Seq<u8>, V)>) -> bool {
    forall|i: int, j: int| 0 <= i < j < slots.len() ==> (#[trigger] slots[i]).0 != (#[trigger] slots[j]).0
}

/// What the cache holds for `key`, if anything.
pub open spec fn cached<V>(slots: Seq<(Seq<u8>, V)>, key: Seq<u8>) -> Option<V> {
    if has_key(slots, key) {
        Some(slots[index_of_key(slots, key)].1)
    } else {
        None
    }
}

/// The slots without the slot of `key`.
pub open spec fn without_key<V>(slots: Seq<(Seq<u8>, V)>, key: Seq<u8>) -> Seq<(Seq<u8>, V)> {
    if has_key(slots, key) {
        slots.remove(index_of_key(slots, key))
    } else {
        slots
    }
}

/// The slots after a lookup of `key`: its slot, if there is one, has moved
/// to the front.
pub open spec fn touched<V>(slots: Seq<(Seq<u8>, V)>, key: Seq<u8>) -> Seq<(Seq<u8>, V)> {
    if has_key(slots, key) {
        seq![slots[index_of_key(slots, key)]] + without_key(slots, key)
    } else {
        slots
    }
}

/// The slots after `value` has been stored for `key` in a cache of the
/// given capacity: the new slot stands at the front, an older slot of the
/// key is gone, and what does not fit has fallen off the back.
pub open spec fn inserted<V>(slots: Seq<(Seq<u8>, V)>, key: Seq<u8>, value: V, capacity: nat) -> Seq<
    (Seq<u8>, V),
> {
    let grown = seq![(key, value)] + without_key(slots, key);
    if grown.len() <= capacity {
        grown
    } else {
        grown.take(capacity as int)
    }
}

struct Slot<V> {
    key: Vec<u8>,
    value: V,
}

/// A cache from byte-string keys to values that holds at most a fixed
/// number of them.
pub struct LruCache<V> {
    capacity: usize,
    slots: Vec<Slot<V>>,
}

impl<V> View for LruCache<V> {
    type V = Seq<(Seq<u8>, V)>;

    closed spec fn view(&self) -> Seq<(Seq<u8>, V)> {
        Seq::new(self.slots@.len(), |i: int| (self.slots@[i].key@, self.slots@[i].value))
    }
}

impl<V> LruCache<V> {
    /// The largest number of slots.
    pub closed spec fn spec_capacity(&self) -> nat {
        self.capacity as nat
    }

    /// No key has two slots, and the slots fit the capacity.
    pub open spec fn wf(&self) -> bool {
        &&& keys_distinct(self@)
        &&& self@.len() <= self.spec_capacity()
    }

    /// An empty cache for at most `capacity` values.
    pub fn new(capacity: usize) -> (r: Self)
        ensures
            r.wf(),
            r@ == Seq::<(Seq<u8>, V)>::empty(),
            r.spec_capacity() == capacity,
    {
        let r = LruCache { capacity, slots: Vec::new() };
        assert(r@ =~= Seq::<(Seq<u8>, V)>::empty());
        r
    }

    /// The largest number of values the cache holds.
    pub fn capacity(&self) -> (r: usize)
        ensures
            r == self.spec_capacity(),
    {
        self.capacity
    }

    /// The number of values the cache holds.
    pub fn len(&self) -> (r: usize)
        ensures
            r == self@.len(),
    {
        self.slots.len()
    }

    fn position(&self, key: &[u8]) -> (r: Option<usize>)
        requires
            self.wf(),
        ensures
            r is Some == has_key(self@, key@),
            r matches Some(i) ==> i < self@.len() && i == index_of_key(self@, key@) && self@[i as int].0
                == key@,
    {
        let mut i: usize = 0;
        while i < self.slots.len()
            invariant
                i <= self.slots@.len(),
                self.wf(),
                forall|k: int| 0 <= k < i ==> (#[trigger] self@[k]).0 != key@,
            decreases self.slots@.len() - i,
        {
            if bytes_eq(self.slots[i].key.as_slice(), key) {
                assert(self@[i as int].0 == key@);
                let ghost chosen = index_of_key(self@, key@);
                assert(self@[chosen].0 == key@);
                return Some(i);
            }
            i = i + 1;
        }
        None
    }

    /// Whether the cache holds a value for `key`. Does not count as a use.
    pub fn contains(&self, key: &[u8]) -> (r: bool)
        requires
            self.wf(),
        ensures
            r == has_key(self@, key@),
    {
        self.position(key).is_some()
    }

    /// The value held for `key`, without counting as a use.
    pub fn peek(&self, key: &[u8]) -> (r: Option<&V>)
        requires
            self.wf(),
        ensures
            match r {
                Some(v) => cached(self@, key@) == Some(*v),
                None => cached(self@, key@) is None,
            },
    {
        match self.position(key) {
            Some(i) => {
                assert(self@[i as int].1 == self.slots@[i as int].value);
                Some(&self.slots[i].value)
            },
            None => None,
        }
    }

    /// The value held for `key`. A hit counts as a use: the slot moves to
    /// the front.
    pub fn get(&mut self, key: &[u8]) -> (r: Option<&V>)
        requires
            old(self).wf(),
        ensures
            final(self).wf(),
            final(self).spec_capacity() == old(self).spec_capacity(),
            final(self)@ == touched(old(self)@, key@),
            match r {
                Some(v) => cached(old(self)@, key@) == Some(*v),
                None => cached(old(self)@, key@) is None,
            },
    {
        let ghost before = self@;
        match self.position(key) {
            Some(i) => {
                let slot = self.slots.remove(i);
                assert(self@ =~= before.remove(i as int));
                self.slots.insert(0, slot);
                assert(self@ =~= seq![before[i as int]] + before.remove(i as int));
                proof {
                    lemma_touched_distinct(before, key@);
                }
                assert(self@[0].1 == self.slots@[0].value);
                Some(&self.slots[0].value)
            },
            None => None,
        }
    }

    /// Stores `value` for `key`, in place of what was held for it, as the
    /// most recently used value. Where the cache is full, the values used
    /// longest ago make room.
    pub fn insert(&mut self, key: Vec<u8>, value: V)
        requires
            old(self).wf(),
        ensures
            final(self).wf(),
            final(self).spec_capacity() == old(self).spec_capacity(),
            final(self)@ == inserted(old(self)@, key@, value, old(self).spec_capacity()),
    {
        let ghost before = self@;
        match self.position(key.as_slice()) {
            Some(i) => {
                self.slots.remove(i);
                assert(self@ =~= before.remove(i as int));
            },
            None => {},
        }
        assert(self@ == without_key(before, key@));
        let ghost trimmed = self@;
        self.slots.insert(0, Slot { key, value });
        assert(self@ =~= seq![(key@, value)] + trimmed);
        proof {
            lemma_inserted_distinct(before, key@, value, self.capacity as nat);
        }
        if self.slots.len() > self.capacity {
            let ghost grown = self@;
            self.slots.truncate(self.capacity);
            assert(self@ =~= grown.take(self.capacity as int));
        }
    }
}

/// Taking a slot out leaves the other slots with their keys distinct, and
/// none of them has the removed key.
pub proof fn lemma_without_key<V>(slots: Seq<(Seq<u8>, V)>, key: Seq<u8>)
    requires
        keys_distinct(slots),
    ensures
        keys_distinct(without_key(slots, key)),
        !has_key(without_key(slots, key), key),
        without_key(slots, key).len() <= slots.len(),
        forall|other: Seq<u8>| other != key ==> cached(without_key(slots, key), other) == cached(slots, other),
{
    let rest = without_key(slots, key);
    if has_key(slots, key) {
        let at = index_of_key(slots, key);
        assert forall|i: int, j: int| 0 <= i < j < rest.len() implies (#[trigger] rest[i]).0 != (
        #[trigger] rest[j]).0 by {
            let a = if i < at { i } else { i + 1 };
            let b = if j < at { j } else { j + 1 };
            assert(slots[a].0 != slots[b].0);
        }
        if has_key(rest, key) {
            let i = index_of_key(rest, key);
            let a = if i < at { i } else { i + 1 };
            assert(slots[a].0 == key);
            if a < at {
                assert(slots[a].0 != slots[at].0);
            } else {
                assert(slots[at].0 != slots[a].0);
            }
        }
        assert forall|other: Seq<u8>| other != key implies cached(rest, other) == cached(slots, other) by {
            if has_key(slots, other) {
                let p = index_of_key(slots, other);
                let q = if p < at { p } else { p - 1 };
                assert(rest[q] == slots[p]);
                assert(has_key(rest, other));
                let r = index_of_key(rest, other);
                if r != q {
                    if r < q {
                        assert(rest[r].0 != rest[q].0);
                    } else {
                        assert(rest[q].0 != rest[r].0);
                    }
                }
            } else if has_key(rest, other) {
                let r = index_of_key(rest, other);
                let a = if r < at { r } else { r + 1 };
                assert(slots[a].0 == other);
            }
        }
    }
}

/// A lookup keeps the keys distinct and changes no value.
pub proof fn lemma_touched_distinct<V>(slots: Seq<(Seq<u8>, V)>, key: Seq<u8>)
    requires
        keys_distinct(slots),
    ensures
        keys_distinct(touched(slots, key)),
        touched(slots, key).len() == slots.len(),
        forall|other: Seq<u8>| cached(touched(slots, key), other) == cached(slots, other),
{
    let after = touched(slots, key);
    if has_key(slots, key) {
        let at = index_of_key(slots, key);
        let rest = without_key(slots, key);
        lemma_without_key(slots, key);
        assert forall|i: int, j: int| 0 <= i < j < after.len() implies (#[trigger] after[i]).0 != (
        #[trigger] after[j]).0 by {
            if i == 0 {
                assert(after[j] == rest[j - 1]);
                if rest[j - 1].0 == key {
                    assert(has_key(rest, key));
                }
            } else {
                assert(after[i] == rest[i - 1]);
                assert(after[j] == rest[j - 1]);
                assert(rest[i - 1].0 != rest[j - 1].0);
            }
        }
        assert forall|other: Seq<u8>| cached(after, other) == cached(slots, other) by {
            lemma_front_slot(slots[at], rest, other);
        }
    }
}

/// What a list of slots with one more slot at its front holds for a key.
pub proof fn lemma_front_slot<V>(slot: (Seq<u8>, V), rest: Seq<(Seq<u8>, V)>, other: Seq<u8>)
    requires
        keys_distinct(rest),
        !has_key(rest, slot.0),
    ensures
        keys_distinct(seq![slot] + rest),
        cached(seq![slot] + rest, other) == if other == slot.0 {
            Some(slot.1)
        } else {
            cached(rest, other)
        },
{
    let all = seq![slot] + rest;
    assert forall|i: int, j: int| 0 <= i < j < all.len() implies (#[trigger] all[i]).0 != (
    #[trigger] all[j]).0 by {
        assert(all[j] == rest[j - 1]);
        if i == 0 {
            if rest[j - 1].0 == slot.0 {
                assert(has_key(rest, slot.0));
            }
        } else {
            assert(all[i] == rest[i - 1]);
            assert(rest[i - 1].0 != rest[j - 1].0);
        }
    }
    if other == slot.0 {
        assert(all[0].0 == other);
        let r = index_of_key(all, other);
        if r != 0 {
            assert(all[0].0 != all[r].0);
        }
    } else if has_key(rest, other) {
        let p = index_of_key(rest, other);
        assert(all[p + 1] == rest[p]);
        assert(has_key(all, other));
        let r = index_of_key(all, other);
        assert(all[r] == rest[r - 1]);
        if r - 1 != p {
            if r - 1 < p {
                assert(rest[r - 1].0 != rest[p].0);
            } else {
                assert(rest[p].0 != rest[r - 1].0);
            }
        }
    } else if has_key(all, other) {
        let r = index_of_key(all, other);
        assert(all[r] == rest[r - 1]);
        assert(rest[r - 1].0 == other);
    }
}

/// An insertion keeps the keys distinct and the cache within its
/// capacity. Where the capacity is not zero, the cache then holds the new
/// value for the key; for any other key it holds what it held before, or
/// nothing any more.
pub proof fn lemma_inserted_distinct<V>(slots: Seq<(Seq<u8>, V)>, key: Seq<u8>, value: V, capacity: nat)
    requires
        keys_distinct(slots),
    ensures
        keys_distinct(inserted(slots, key, value, capacity)),
        inserted(slots, key, value, capacity).len() <= capacity,
        capacity > 0 ==> cached(inserted(slots, key, value, capacity), key) == Some(value),
        forall|other: Seq<u8>|
            other != key ==> cached(inserted(slots, key, value, capacity), other) is None || cached(
                inserted(slots, key, value, capacity),
                other,
            ) == cached(slots, other),
{
    let rest = without_key(slots, key);
    lemma_without_key(slots, key);
    let grown = seq![(key, value)] + rest;
    let after = inserted(slots, key, value, capacity);
    lemma_front_slot((key, value), rest, key);
    assert forall|i: int, j: int| 0 <= i < j < after.len() implies (#[trigger] after[i]).0 != (
    #[trigger] after[j]).0 by {
        assert(grown[i].0 != grown[j].0);
    }
    if capacity > 0 {
        assert(after[0] == (key, value));
        assert(has_key(after, key));
        let r = index_of_key(after, key);
        if r != 0 {
            assert(after[0].0 != after[r].0);
        }
    }
    assert forall|other: Seq<u8>| other != key implies cached(after, other) is None || cached(
        after,
        other,
    ) == cached(slots, other) by {
        lemma_front_slot((key, value), rest, other);
        if has_key(after, other) {
            let r = index_of_key(after, other);
            assert(grown[r] == after[r]);
            assert(has_key(grown, other));
            let g = index_of_key(grown, other);
            if g != r {
                if g < r {
                    assert(grown[g].0 != grown[r].0);
                } else {
                    assert(grown[r].0 != grown[g].0);
                }
            }
        }
    }
}

} // verus!

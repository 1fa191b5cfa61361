//! Locks by key. Whoever asks for the lock of a key gets a ticket. The
//! first ticket of a key holds the lock; later ones wait in the order in
//! which they asked, and each gets the lock when all before it have let go.
//! A key is only kept while somebody holds its lock.
//!
//! The set decides who holds and who is next. Waiting and waking are left
//! to the caller.

use crate::cache::{cached, has_key, index_of_key, keys_distinct};
use crate::text::{bytes_eq, copy_bytes};
use vstd::prelude::*;

verus! {

/// What asking for a lock came to.
#[derive(Clone, Copy, Debug, PartialEq, Eq, Structural)]
pub enum Acquired {
    /// The lock was free: the ticket holds it now.
    Granted { ticket: u64 },
    /// The lock is held: the ticket waits for it.
    Queued { ticket: u64 },
}

/// What giving a ticket back came to.
#[derive(Clone, Copy, Debug, PartialEq, Eq, Structural)]
pub enum Released {
    /// The ticket held the lock and nobody waited: the lock is free.
    Freed,
    /// The ticket held the lock: the ticket `next` holds it now and is to
    /// be woken.
    Handed { next: u64 },
    /// The ticket was waiting and has left the queue.
    Withdrawn,
    /// The ticket neither held the lock of the key nor waited for it.
    Unknown,
}

/// The tickets of a key, the holder first, or none if the key is free.
pub open spec fn queue_of(locks: Seq<(Seq<u8>, Seq<u64>)>, key: Seq<u8>) -> Seq<u64> {
    match cached(locks, key) {
        Some(queue) => queue,
        None => Seq::empty(),
    }
}

/// The locks after a new ticket has asked for the lock of `key`.
pub open spec fn after_acquire(locks: Seq<(Seq<u8>, Seq<u64>)>, key: Seq<u8>, ticket: u64) -> Seq<
    (Seq<u8>, Seq<u64>),
> {
    if has_key(locks, key) {
        let at = index_of_key(locks, key);
        locks.update(at, (key, locks[at].1.push(ticket)))
    } else {
        locks.push((key, seq![ticket]))
    }
}

/// The locks after `ticket` has been given back for `key`.
pub open spec fn after_release(locks: Seq<(Seq<u8>, Seq<u64>)>, key: Seq<u8>, ticket: u64) -> Seq<
    (Seq<u8>, Seq<u64>),
> {
    if has_key(locks, key) && locks[index_of_key(locks, key)].1.contains(ticket) {
        let at = index_of_key(locks, key);
        let queue = locks[at].1;
        if queue.len() == 1 {
            locks.remove(at)
        } else {
            locks.update(at, (key, queue.remove(queue.index_of(ticket))))
        }
    } else {
        locks
    }
}

/// What giving `ticket` back for `key` comes to.
pub open spec fn release_outcome(locks: Seq<(Seq<u8>, Seq<u64>)>, key: Seq<u8>, ticket: u64) -> Released {
    let queue = queue_of(locks, key);
    if !queue.contains(ticket) {
        Released::Unknown
    } else if queue[0] != ticket {
        Released::Withdrawn
    } else if queue.len() == 1 {
        Released::Freed
    } else {
        Released::Handed { next: queue[1] }
    }
}

/// Whether the tickets of a queue stand in the order in which they were
/// given out, all of them below `bound`.
pub open spec fn in_order(queue: Seq<u64>, bound: u64) -> bool {
    &&& forall|i: int, j: int| 0 <= i < j < queue.len() ==> queue[i] < queue[j]
    &&& forall|i: int| 0 <= i < queue.len() ==> queue[i] < bound
}

struct LockEntry {
    key: Vec<u8>,
    queue: Vec<u64>,
}

/// The locks of the keys that are in use.
pub struct LockSet {
    entries: Vec<LockEntry>,
    next_ticket: u64,
}

impl View for LockSet {
    type V = Seq<(Seq<u8>, Seq<u64>)>;

    closed spec fn view(&self) -> Seq<(Seq<u8>, Seq<u64>)> {
        Seq::new(self.entries@.len(), |i: int| (self.entries@[i].key@, self.entries@[i].queue@))
    }
}

impl LockSet {
    /// The ticket that the next request gets.
    pub closed spec fn spec_next_ticket(&self) -> u64 {
        self.next_ticket
    }

    /// No key stands twice, every key that stands has a holder, and the
    /// tickets of each key stand in the order in which they were given out.
    pub open spec fn wf(&self) -> bool {
        &&& keys_distinct(self@)
        &&& forall|i: int| 0 <= i < self@.len() ==> (#[trigger] self@[i]).1.len() > 0
        &&& forall|i: int| 0 <= i < self@.len() ==> in_order((#[trigger] self@[i]).1, self.spec_next_ticket())
    }

    /// The ticket that holds the lock of `key`, if the lock is held.
    pub open spec fn holder(&self, key: Seq<u8>) -> Option<u64> {
        if queue_of(self@, key).len() > 0 {
            Some(queue_of(self@, key)[0])
        } else {
            None
        }
    }

    /// A set in which every lock is free.
    pub fn new() -> (r: Self)
        ensures
            r.wf(),
            r@ == Seq::<(Seq<u8>, Seq<u64>)>::empty(),
            r.spec_next_ticket() == 0,
    {
        let r = LockSet { entries: Vec::new(), next_ticket: 0 };
        assert(r@ =~= Seq::<(Seq<u8>, Seq<u64>)>::empty());
        r
    }

    fn position(&self, key: &[u8]) -> (r: Option<usize>)
        requires
            self.wf(),
        ensures
            r is Some == has_key(self@, key@),
            r matches Some(i) ==> i < self@.len() && i == index_of_key(self@, key@) && self@[i as int].0
                == key@,
    {
        let mut i: usize = 0;
        while i < self.entries.len()
            invariant
                i <= self.entries@.len(),
                self.wf(),
                forall|k: int| 0 <= k < i ==> (#[trigger] self@[k]).0 != key@,
            decreases self.entries@.len() - i,
        {
            if bytes_eq(self.entries[i].key.as_slice(), key) {
                assert(self@[i as int].0 == key@);
                let ghost chosen = index_of_key(self@, key@);
                assert(self@[chosen].0 == key@);
                return Some(i);
            }
            i = i + 1;
        }
        None
    }

    /// Whether the lock of `key` is held.
    pub fn is_locked(&self, key: &[u8]) -> (r: bool)
        requires
            self.wf(),
        ensures
            r == self.holder(key@) is Some,
    {
        match self.position(key) {
            Some(i) => {
                assert(self@[i as int].1.len() > 0);
                true
            },
            None => false,
        }
    }

    /// Asks for the lock of `key`. The request gets the next ticket, which
    /// holds the lock at once if the lock is free and waits behind all
    /// earlier tickets of the key if it is not. `None` only when the
    /// tickets have run out; nothing changes then.
    pub fn acquire(&mut self, key: &[u8]) -> (r: Option<Acquired>)
        requires
            old(self).wf(),
        ensures
            final(self).wf(),
            old(self).spec_next_ticket() == u64::MAX ==> r is None && final(self)@ == old(self)@
                && final(self).spec_next_ticket() == old(self).spec_next_ticket(),
            old(self).spec_next_ticket() < u64::MAX ==> {
                let ticket = old(self).spec_next_ticket();
                &&& final(self).spec_next_ticket() == ticket + 1
                &&& final(self)@ == after_acquire(old(self)@, key@, ticket)
                &&& r == Some(
                    if old(self).holder(key@) is None {
                        Acquired::Granted { ticket }
                    } else {
                        Acquired::Queued { ticket }
                    },
                )
            },
    {
        if self.next_ticket == u64::MAX {
            return None;
        }
        let ticket = self.next_ticket;
        let ghost before = self@;
        match self.position(key) {
            Some(i) => {
                assert(before[i as int].1.len() > 0);
                let entry = self.entries.remove(i);
                let mut queue = entry.queue;
                queue.push(ticket);
                self.entries.insert(i, LockEntry { key: entry.key, queue });
                self.next_ticket = ticket + 1;
                assert(self@ =~= before.update(i as int, (key@, before[i as int].1.push(ticket))));
                assert forall|a: int, b: int| 0 <= a < b < self@.len() implies (#[trigger] self@[a]).0 != (
                #[trigger] self@[b]).0 by {
                    assert(before[a].0 != before[b].0);
                }
                assert forall|k: int| 0 <= k < self@.len() implies (#[trigger] self@[k]).1.len() > 0
                    && in_order(self@[k].1, self.spec_next_ticket()) by {
                    assert(before[k].1.len() > 0);
                    assert(in_order(before[k].1, ticket));
                }
                Some(Acquired::Queued { ticket })
            },
            None => {
                let mut queue: Vec<u64> = Vec::new();
                queue.push(ticket);
                self.entries.push(LockEntry { key: copy_bytes(key), queue });
                self.next_ticket = ticket + 1;
                assert(self@ =~= before.push((key@, seq![ticket])));
                assert forall|a: int, b: int| 0 <= a < b < self@.len() implies (#[trigger] self@[a]).0 != (
                #[trigger] self@[b]).0 by {
                    if b < before.len() {
                        assert(before[a].0 != before[b].0);
                    } else {
                        assert(before[a].0 == key@ ==> has_key(before, key@));
                    }
                }
                assert forall|k: int| 0 <= k < self@.len() implies (#[trigger] self@[k]).1.len() > 0
                    && in_order(self@[k].1, self.spec_next_ticket()) by {
                    if k < before.len() {
                        assert(before[k].1.len() > 0);
                        assert(in_order(before[k].1, ticket));
                    }
                }
                Some(Acquired::Granted { ticket })
            },
        }
    }

    /// Gives `ticket` back for `key`. If the ticket held the lock, the
    /// ticket that has waited longest gets it; if nobody waited, the key
    /// is forgotten. A ticket that was still waiting leaves the queue. A
    /// ticket that the key does not know changes nothing.
    pub fn release(&mut self, key: &[u8], ticket: u64) -> (r: Released)
        requires
            old(self).wf(),
        ensures
            final(self).wf(),
            final(self).spec_next_ticket() == old(self).spec_next_ticket(),
            final(self)@ == after_release(old(self)@, key@, ticket),
            r == release_outcome(old(self)@, key@, ticket),
    {
        let ghost before = self@;
        let at = match self.position(key) {
            Some(i) => i,
            None => {
                return Released::Unknown;
            },
        };
        let ghost queue = before[at as int].1;
        assert(queue.len() > 0 && in_order(queue, self.spec_next_ticket()));
        let mut found: Option<usize> = None;
        let mut k: usize = 0;
        while k < self.entries[at].queue.len()
            invariant
                k <= queue.len(),
                at < self.entries@.len(),
                self@ == before,
                queue == before[at as int].1,
                queue == self.entries@[at as int].queue@,
                match found {
                    Some(w) => w < k && queue[w as int] == ticket,
                    None => forall|x: int| 0 <= x < k ==> queue[x] != ticket,
                },
            decreases queue.len() - k,
        {
            if self.entries[at].queue[k] == ticket {
                found = Some(k);
            }
            k = k + 1;
        }
        let index = match found {
            Some(w) => w,
            None => {
                return Released::Unknown;
            },
        };
        assert(queue.contains(ticket));
        assert(queue.index_of(ticket) == index) by {
            let c = queue.index_of(ticket);
            if c < index {
                assert(queue[c] < queue[index as int]);
            }
            if c > index {
                assert(queue[index as int] < queue[c]);
            }
        }
        let entry = self.entries.remove(at);
        assert(self@ =~= before.remove(at as int));
        let mut tickets = entry.queue;
        if tickets.len() == 1 {
            assert forall|a: int, b: int| 0 <= a < b < self@.len() implies (#[trigger] self@[a]).0 != (
            #[trigger] self@[b]).0 by {
                let a2 = if a < at { a } else { a + 1 };
                let b2 = if b < at { b } else { b + 1 };
                assert(before[a2].0 != before[b2].0);
            }
            assert forall|x: int| 0 <= x < self@.len() implies (#[trigger] self@[x]).1.len() > 0 && in_order(
                self@[x].1,
                self.spec_next_ticket(),
            ) by {
                let x2 = if x < at { x } else { x + 1 };
                assert(before[x2].1.len() > 0);
                assert(in_order(before[x2].1, self.spec_next_ticket()));
            }
            return Released::Freed;
        }
        tickets.remove(index);
        let ghost rest = tickets@;
        assert(rest =~= queue.remove(index as int));
        let outcome = if index == 0 {
            assert(rest[0] == queue[1]);
            Released::Handed { next: tickets[0] }
        } else {
            Released::Withdrawn
        };
        self.entries.insert(at, LockEntry { key: entry.key, queue: tickets });
        assert(self@ =~= before.update(at as int, (key@, rest)));
        assert forall|a: int, b: int| 0 <= a < b < self@.len() implies (#[trigger] self@[a]).0 != (
        #[trigger] self@[b]).0 by {
            assert(before[a].0 != before[b].0);
        }
        assert forall|x: int| 0 <= x < self@.len() implies (#[trigger] self@[x]).1.len() > 0 && in_order(
            self@[x].1,
            self.spec_next_ticket(),
        ) by {
            assert(before[x].1.len() > 0);
            assert(in_order(before[x].1, self.spec_next_ticket()));
            if x == at {
                assert forall|i: int, j: int| 0 <= i < j < rest.len() implies rest[i] < rest[j] by {
                    let i2 = if i < index { i } else { i + 1 };
                    let j2 = if j < index { j } else { j + 1 };
                    assert(queue[i2] < queue[j2]);
                }
                assert forall|i: int| 0 <= i < rest.len() implies rest[i] < self.spec_next_ticket() by {
                    let i2 = if i < index { i } else { i + 1 };
                    assert(queue[i2] < self.spec_next_ticket());
                }
            }
        }
        outcome
    }
}

/// One holder at a time, and in the order of asking: a key that is known
/// has exactly one holder, the earliest of its tickets; when the holder
/// lets go, the lock goes to the earliest ticket that is left.
pub proof fn lemma_first_come_first_served(locks: Seq<(Seq<u8>, Seq<u64>)>, key: Seq<u8>, bound: u64)
    requires
        keys_distinct(locks),
        has_key(locks, key),
        queue_of(locks, key).len() > 0,
        in_order(queue_of(locks, key), bound),
    ensures
        forall|i: int|
            0 < i < queue_of(locks, key).len() ==> queue_of(locks, key)[0] < #[trigger] queue_of(
                locks,
                key,
            )[i],
        release_outcome(locks, key, queue_of(locks, key)[0]) == if queue_of(locks, key).len() == 1 {
            Released::Freed
        } else {
            Released::Handed { next: queue_of(locks, key)[1] }
        },
        queue_of(locks, key).len() > 1 ==> queue_of(
            after_release(locks, key, queue_of(locks, key)[0]),
            key,
        ) == queue_of(locks, key).drop_first(),
        queue_of(locks, key).len() == 1 ==> !has_key(
            after_release(locks, key, queue_of(locks, key)[0]),
            key,
        ),
{
    let queue = queue_of(locks, key);
    let at = index_of_key(locks, key);
    let first = queue[0];
    assert(queue.contains(first));
    let c = queue.index_of(first);
    if c != 0 {
        assert(queue[0] < queue[c]);
    }
    let after = after_release(locks, key, first);
    if queue.len() == 1 {
        assert(after =~= locks.remove(at));
        if has_key(after, key) {
            let p = index_of_key(after, key);
            let shifted = if p < at { p } else { p + 1 };
            assert(locks[shifted].0 == key);
            if shifted < at {
                assert(locks[shifted].0 != locks[at].0);
            } else {
                assert(locks[at].0 != locks[shifted].0);
            }
        }
    } else {
        assert(queue.remove(0) =~= queue.drop_first());
        assert(after[at].0 == key);
        assert(has_key(after, key));
        let p = index_of_key(after, key);
        if p != at {
            assert(locks[p].0 == key);
            if p < at {
                assert(locks[p].0 != locks[at].0);
            } else {
                assert(locks[at].0 != locks[p].0);
            }
        }
    }
}

} // verus!

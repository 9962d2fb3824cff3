//! The expiring store: byte-string keys to byte-string values, each with an
//! optional deadline on a millisecond clock that the caller reads.
//!
//! A key whose deadline is at or before the current time is absent to every
//! reader, whether or not `reap` has removed it yet.
use crate::text::bytes_eq;
use vstd::prelude::*;

verus! {

/// What the store holds for one key.
pub struct Slot {
    pub value: Seq<u8>,
    pub deadline: Option<u64>,
}

/// Whether a slot can still be observed at time `now`.
pub open spec fn is_live(s: Slot, now: u64) -> bool {
    match s.deadline {
        None => true,
        Some(d) => now < d,
    }
}

/// What a read of `k` at time `now` observes.
pub open spec fn lookup(m: Map<Seq<u8>, Slot>, k: Seq<u8>, now: u64) -> Option<Seq<u8>> {
    if m.contains_key(k) && is_live(m[k], now) {
        Some(m[k].value)
    } else {
        None
    }
}

/// The slots of `m` that are still live at `now`.
pub open spec fn live_part(m: Map<Seq<u8>, Slot>, now: u64) -> Map<Seq<u8>, Slot> {
    Map::new(|k: Seq<u8>| m.contains_key(k) && is_live(m[k], now), |k: Seq<u8>| m[k])
}

/// `now + ttl`, or `u64::MAX` where that does not fit.
pub open spec fn deadline_after(now: u64, ttl: u64) -> u64 {
    if now + ttl > u64::MAX {
        u64::MAX
    } else {
        (now + ttl) as u64
    }
}

struct Entry {
    key: Vec<u8>,
    value: Vec<u8>,
    deadline: Option<u64>,
}

spec fn slot_of(e: Entry) -> Slot {
    Slot { value: e.value@, deadline: e.deadline }
}

/// The store.
pub struct Cache {
    entries: Vec<Entry>,
}

impl View for Cache {
    type V = Map<Seq<u8>, Slot>;

    closed spec fn view(&self) -> Map<Seq<u8>, Slot> {
        Map::new(
            |k: Seq<u8>| exists|i: int| 0 <= i < self.entries@.len() && self.entries@[i].key@ == k,
            |k: Seq<u8>|
                {
                    let i = choose|i: int|
                        0 <= i < self.entries@.len() && self.entries@[i].key@ == k;
                    slot_of(self.entries@[i])
                },
        )
    }
}

impl Cache {
    /// No two entries share a key.
    pub closed spec fn wf(&self) -> bool {
        forall|i: int, j: int|
            0 <= i < self.entries@.len() && 0 <= j < self.entries@.len() && i != j
                ==> #[trigger] self.entries@[i].key@ != #[trigger] self.entries@[j].key@
    }

    proof fn lemma_entry(&self, i: int)
        requires
            self.wf(),
            0 <= i < self.entries@.len(),
        ensures
            self@.contains_key(self.entries@[i].key@),
            self@[self.entries@[i].key@] == slot_of(self.entries@[i]),
    {
        let k = self.entries@[i].key@;
        assert(exists|j: int| 0 <= j < self.entries@.len() && self.entries@[j].key@ == k);
        let j = choose|j: int| 0 <= j < self.entries@.len() && self.entries@[j].key@ == k;
        assert(i == j);
    }

    proof fn lemma_absent(&self, k: Seq<u8>)
        requires
            forall|i: int| 0 <= i < self.entries@.len() ==> self.entries@[i].key@ != k,
        ensures
            !self@.contains_key(k),
    {
    }

    /// The index of the entry for `key`.
    fn find(&self, key: &[u8]) -> (r: Option<usize>)
        requires
            self.wf(),
        ensures
            match r {
                Some(i) => i < self.entries@.len() && self.entries@[i as int].key@ == key@
                    && self@.contains_key(key@) && self@[key@] == slot_of(
                    self.entries@[i as int],
                ),
                None => !self@.contains_key(key@),
            },
    {
        let mut i: usize = 0;
        while i < self.entries.len()
            invariant
                self.wf(),
                0 <= i <= self.entries@.len(),
                forall|j: int| 0 <= j < i ==> self.entries@[j].key@ != key@,
            decreases self.entries@.len() - i,
        {
            if bytes_eq(self.entries[i].key.as_slice(), key) {
                proof {
                    self.lemma_entry(i as int);
                }
                return Some(i);
            }
            i = i + 1;
        }
        proof {
            self.lemma_absent(key@);
        }
        None
    }

    /// An empty store.
    pub fn new() -> (r: Cache)
        ensures
            r.wf(),
            r@ == Map::<Seq<u8>, Slot>::empty(),
    {
        let r = Cache { entries: Vec::new() };
        assert(r@ =~= Map::<Seq<u8>, Slot>::empty());
        r
    }

    /// After entry `i` of `before` is overwritten by `e` with the same key,
    /// or `e` with a new key is appended at `i`, the view maps that key to
    /// `e`'s slot and is otherwise unchanged.
    proof fn lemma_after_store(&self, before: &Cache, i: int, e: Entry)
        requires
            before.wf(),
            0 <= i <= before.entries@.len(),
            i < before.entries@.len() ==> before.entries@[i].key@ == e.key@
                && self.entries@ == before.entries@.update(i, e),
            i == before.entries@.len() ==> !before@.contains_key(e.key@)
                && self.entries@ == before.entries@.push(e),
        ensures
            self.wf(),
            self@ == before@.insert(e.key@, slot_of(e)),
    {
        let b = before.entries@;
        let n = b.len() as int;
        let k = e.key@;
        assert(self.entries@.len() == if i < n { n } else { n + 1 });
        assert forall|j: int| 0 <= j < self.entries@.len() && j != i implies #[trigger]
            self.entries@[j] == b[j] by {}
        assert(self.entries@[i] == e);
        assert forall|x: int, y: int|
            0 <= x < self.entries@.len() && 0 <= y < self.entries@.len() && x != y
                implies #[trigger] self.entries@[x].key@ != #[trigger] self.entries@[y].key@ by {
            if x != i && y != i {
                assert(b[x].key@ != b[y].key@);
            } else {
                let o = if x == i {
                    y
                } else {
                    x
                };
                if i < n {
                    assert(b[o].key@ != b[i].key@);
                } else {
                    before.lemma_entry(o);
                }
            }
        }
        assert forall|k2: Seq<u8>|
            #![auto]
            self@.contains_key(k2) == before@.insert(k, slot_of(e)).contains_key(k2) by {
            if self@.contains_key(k2) {
                let j = choose|j: int| 0 <= j < self.entries@.len() && self.entries@[j].key@ == k2;
                if j != i {
                    before.lemma_entry(j);
                }
            }
            if before@.contains_key(k2) && k2 != k {
                let j = choose|j: int| 0 <= j < n && b[j].key@ == k2;
                self.lemma_entry(j);
            }
            if k2 == k {
                self.lemma_entry(i);
            }
        }
        assert forall|k2: Seq<u8>| #[trigger]
            self@.contains_key(k2) implies self@[k2] == before@.insert(k, slot_of(e))[k2] by {
            let j = choose|j: int| 0 <= j < self.entries@.len() && self.entries@[j].key@ == k2;
            self.lemma_entry(j);
            if j != i {
                before.lemma_entry(j);
            }
        }
        assert(self@ =~= before@.insert(k, slot_of(e)));
    }

    /// Stores `value` under `key` with the given deadline.
    fn put(&mut self, key: Vec<u8>, value: Vec<u8>, deadline: Option<u64>)
        requires
            old(self).wf(),
        ensures
            final(self).wf(),
            final(self)@ == old(self)@.insert(key@, (Slot { value: value@, deadline })),
    {
        let ghost prev = *self;
        match self.find(key.as_slice()) {
            Some(i) => {
                let e = Entry { key, value, deadline };
                let ghost g = e;
                self.entries.set(i, e);
                proof {
                    self.lemma_after_store(&prev, i as int, g);
                }
            },
            None => {
                let e = Entry { key, value, deadline };
                let ghost g = e;
                self.entries.push(e);
                proof {
                    self.lemma_after_store(&prev, prev.entries@.len() as int, g);
                }
            },
        }
    }

    /// Stores `value` under `key` with no deadline, clearing any earlier one.
    pub fn set(&mut self, key: Vec<u8>, value: Vec<u8>)
        requires
            old(self).wf(),
        ensures
            final(self).wf(),
            final(self)@ == old(self)@.insert(key@, (Slot { value: value@, deadline: None })),
    {
        self.put(key, value, None);
    }

    /// Stores `value` under `key` until `ttl_ms` milliseconds after `now`.
    pub fn set_with_expiration(&mut self, key: Vec<u8>, value: Vec<u8>, ttl_ms: u64, now: u64)
        requires
            old(self).wf(),
        ensures
            final(self).wf(),
            final(self)@ == old(self)@.insert(
                key@,
                (Slot { value: value@, deadline: Some(deadline_after(now, ttl_ms)) }),
            ),
    {
        let deadline = if ttl_ms > u64::MAX - now {
            u64::MAX
        } else {
            now + ttl_ms
        };
        self.put(key, value, Some(deadline));
    }

    /// Stores `value` under `key`, keeping the deadline the key has.
    pub fn set_keep_deadline(&mut self, key: Vec<u8>, value: Vec<u8>)
        requires
            old(self).wf(),
        ensures
            final(self).wf(),
            final(self)@ == old(self)@.insert(
                key@,
                (Slot {
                    value: value@,
                    deadline: if old(self)@.contains_key(key@) {
                        old(self)@[key@].deadline
                    } else {
                        None
                    },
                }),
            ),
    {
        let deadline = match self.find(key.as_slice()) {
            Some(i) => self.entries[i].deadline,
            None => None,
        };
        self.put(key, value, deadline);
    }

    /// The value of `key` at time `now`.
    pub fn get(&self, key: &[u8], now: u64) -> (r: Option<Vec<u8>>)
        requires
            self.wf(),
        ensures
            match r {
                Some(v) => lookup(self@, key@, now) == Some(v@),
                None => lookup(self@, key@, now) is None,
            },
    {
        match self.find(key) {
            Some(i) => {
                let e = &self.entries[i];
                let live = match e.deadline {
                    None => true,
                    Some(d) => now < d,
                };
                if live {
                    Some(vstd::slice::slice_to_vec(e.value.as_slice()))
                } else {
                    None
                }
            },
            None => None,
        }
    }

    /// Whether `key` has a value at time `now`.
    pub fn key_exists(&self, key: &[u8], now: u64) -> (r: bool)
        requires
            self.wf(),
        ensures
            r == lookup(self@, key@, now) is Some,
    {
        match self.find(key) {
            Some(i) => match self.entries[i].deadline {
                None => true,
                Some(d) => now < d,
            },
            None => false,
        }
    }

    /// Removes `key` and its deadline; returns the value it had at time `now`.
    pub fn del(&mut self, key: &[u8], now: u64) -> (r: Option<Vec<u8>>)
        requires
            old(self).wf(),
        ensures
            final(self).wf(),
            final(self)@ == old(self)@.remove(key@),
            match r {
                Some(v) => lookup(old(self)@, key@, now) == Some(v@),
                None => lookup(old(self)@, key@, now) is None,
            },
    {
        match self.find(key) {
            Some(i) => {
                let e = self.entries.remove(i);
                proof {
                    self.lemma_after_remove(old(self), i as int);
                }
                let live = match e.deadline {
                    None => true,
                    Some(d) => now < d,
                };
                if live {
                    Some(e.value)
                } else {
                    None
                }
            },
            None => {
                assert(self@ =~= old(self)@.remove(key@));
                None
            },
        }
    }

    /// After removing entry `i` of `before`, the view has lost that key only.
    proof fn lemma_after_remove(&self, before: &Cache, i: int)
        requires
            before.wf(),
            0 <= i < before.entries@.len(),
            self.entries@ == before.entries@.remove(i),
        ensures
            self.wf(),
            self@ == before@.remove(before.entries@[i].key@),
    {
        let b = before.entries@;
        let k = b[i].key@;
        let n = b.len() as int;
        assert forall|x: int, y: int|
            0 <= x < self.entries@.len() && 0 <= y < self.entries@.len() && x != y
                implies #[trigger] self.entries@[x].key@ != #[trigger] self.entries@[y].key@ by {
            let bx = if x < i {
                x
            } else {
                x + 1
            };
            let by_ = if y < i {
                y
            } else {
                y + 1
            };
            assert(self.entries@[x] == b[bx]);
            assert(self.entries@[y] == b[by_]);
            assert(b[bx].key@ != b[by_].key@);
        }
        assert forall|k2: Seq<u8>|
            #![auto]
            self@.contains_key(k2) == before@.remove(k).contains_key(k2) by {
            if self@.contains_key(k2) {
                let j = choose|j: int| 0 <= j < self.entries@.len() && self.entries@[j].key@ == k2;
                let bj = if j < i {
                    j
                } else {
                    j + 1
                };
                assert(self.entries@[j] == b[bj]);
                before.lemma_entry(bj);
                assert(bj != i);
            }
            if before@.contains_key(k2) && k2 != k {
                let j = choose|j: int| 0 <= j < n && b[j].key@ == k2;
                let sj = if j < i {
                    j
                } else {
                    j - 1
                };
                assert(j != i);
                assert(self.entries@[sj] == b[j]);
                self.lemma_entry(sj);
            }
        }
        assert forall|k2: Seq<u8>| #[trigger]
            self@.contains_key(k2) implies self@[k2] == before@.remove(k)[k2] by {
            let j = choose|j: int| 0 <= j < self.entries@.len() && self.entries@[j].key@ == k2;
            let bj = if j < i {
                j
            } else {
                j + 1
            };
            assert(self.entries@[j] == b[bj]);
            self.lemma_entry(j);
            before.lemma_entry(bj);
        }
        assert(self@ =~= before@.remove(k));
    }

    /// Removes every key whose deadline is at or before `now`.
    pub fn reap(&mut self, now: u64)
        requires
            old(self).wf(),
        ensures
            final(self).wf(),
            final(self)@ == live_part(old(self)@, now),
    {
        let ghost start = self@;
        let mut i: usize = 0;
        while i < self.entries.len()
            invariant
                self.wf(),
                0 <= i <= self.entries@.len(),
                forall|j: int| 0 <= j < i ==> is_live(slot_of(#[trigger] self.entries@[j]), now),
                forall|k: Seq<u8>| #[trigger]
                    self@.contains_key(k) ==> start.contains_key(k) && self@[k] == start[k],
                forall|k: Seq<u8>|
                    #![trigger start.contains_key(k)]
                    start.contains_key(k) && is_live(start[k], now) ==> self@.contains_key(k),
            decreases self.entries@.len() - i,
        {
            let expired = match self.entries[i].deadline {
                None => false,
                Some(d) => d <= now,
            };
            if expired {
                let ghost prev = *self;
                let ghost gone = self.entries@[i as int].key@;
                proof {
                    prev.lemma_entry(i as int);
                }
                let _ = self.entries.remove(i);
                proof {
                    self.lemma_after_remove(&prev, i as int);
                    assert forall|j: int| 0 <= j < i implies is_live(
                        slot_of(#[trigger] self.entries@[j]),
                        now,
                    ) by {
                        assert(self.entries@[j] == prev.entries@[j]);
                    }
                }
            } else {
                i = i + 1;
            }
        }
        proof {
            assert forall|k: Seq<u8>| #[trigger]
                self@.contains_key(k) implies is_live(self@[k], now) by {
                let j = choose|j: int| 0 <= j < self.entries@.len() && self.entries@[j].key@ == k;
                self.lemma_entry(j);
            }
            assert(self@ =~= live_part(start, now));
        }
    }
}

} // verus!

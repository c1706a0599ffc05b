//! The key-value store: byte-string keys, byte-string values, and an
//! optional expiry on each value.
//!
//! Time is a count of nanoseconds on the clock that the caller reads: an
//! entry's timer starts at one reading, and a lookup is made at another.
//! Expiry is lazy. An expired entry is passed over by lookups and stays
//! in the store until its key is written again.

use vstd::prelude::*;
use crate::ascii::bytes_eq;

verus! {

/// Nanoseconds in a millisecond.
pub const NANOS_PER_MILLI: u128 = 1_000_000;

/// Start and length of the life of a stored value.
#[derive(Debug, Clone, Copy, PartialEq, Eq, Structural)]
pub struct MapValueTimer {
    /// Clock reading at which the timer was started, in nanoseconds.
    pub start: u128,
    /// Milliseconds that the value lives after `start`.
    pub timeout: u64,
}

impl MapValueTimer {
    /// Time elapsed on the timer at the clock reading `now`; none where
    /// the reading precedes the start.
    pub open spec fn elapsed_at(self, now: u128) -> nat {
        if now >= self.start {
            (now - self.start) as nat
        } else {
            0
        }
    }

    /// Whether the timer has run out at the clock reading `now`: the
    /// elapsed time has reached the timeout.
    pub open spec fn expired_at(self, now: u128) -> bool {
        self.elapsed_at(now) >= self.timeout * NANOS_PER_MILLI
    }

    /// A timer of `timeout` milliseconds started at the clock reading `start`.
    pub fn new(start: u128, timeout: u64) -> (r: Self)
        ensures
            r == (MapValueTimer { start, timeout }),
    {
        MapValueTimer { start, timeout }
    }

    /// Whether the timer has run out at the clock reading `now`.
    pub fn is_expired(&self, now: u128) -> (r: bool)
        ensures
            r == self.expired_at(now),
    {
        let elapsed: u128 = if now >= self.start {
            now - self.start
        } else {
            0
        };
        elapsed >= (self.timeout as u128) * NANOS_PER_MILLI
    }
}

/// Mathematical content of a stored value.
pub ghost struct Stored {
    pub data: Seq<u8>,
    pub timer: Option<MapValueTimer>,
}

impl Stored {
    /// Whether the value counts as absent at the clock reading `now`: it
    /// has a timer, and the timer has run out.
    pub open spec fn expired_at(self, now: u128) -> bool {
        self.timer matches Some(timer) && timer.expired_at(now)
    }
}

/// A value of the store with its optional timer.
#[derive(Debug)]
pub struct MapValue {
    data: Vec<u8>,
    timer: Option<MapValueTimer>,
}

impl View for MapValue {
    type V = Stored;

    closed spec fn view(&self) -> Stored {
        Stored { data: self.data@, timer: self.timer }
    }
}

impl MapValue {
    /// A value to store, with the timer that ends its life if it has one.
    pub fn new(data: Vec<u8>, timer: Option<MapValueTimer>) -> (r: Self)
        ensures
            r@ == (Stored { data: data@, timer }),
    {
        MapValue { data, timer }
    }

    /// The stored bytes.
    pub fn data(&self) -> (r: &Vec<u8>)
        ensures
            r@ == self@.data,
    {
        &self.data
    }

    /// The timer of the value, if it has one.
    pub fn timer(&self) -> (r: Option<MapValueTimer>)
        ensures
            r == self@.timer,
    {
        self.timer
    }

    /// Whether the value counts as absent at the clock reading `now`.
    pub fn is_expired(&self, now: u128) -> (r: bool)
        ensures
            r == self@.expired_at(now),
    {
        match &self.timer {
            Some(timer) => timer.is_expired(now),
            None => false,
        }
    }
}

/// A key with the value to store under it.
#[derive(Debug)]
pub struct MapEntry {
    key: Vec<u8>,
    value: MapValue,
}

impl MapEntry {
    /// The bytes of the key.
    pub closed spec fn key_view(&self) -> Seq<u8> {
        self.key@
    }

    /// The content of the value.
    pub closed spec fn value_view(&self) -> Stored {
        self.value@
    }

    /// An entry that stores `value` under `key`.
    pub fn new(key: Vec<u8>, value: MapValue) -> (r: Self)
        ensures
            r.key_view() == key@,
            r.value_view() == value@,
    {
        MapEntry { key, value }
    }

    /// The key of the entry.
    pub fn key(&self) -> (r: &Vec<u8>)
        ensures
            r@ == self.key_view(),
    {
        &self.key
    }

    /// The value of the entry.
    pub fn value(&self) -> (r: &MapValue)
        ensures
            r@ == self.value_view(),
    {
        &self.value
    }
}

/// What a lookup of `key` finds at the clock reading `now`: the data
/// stored under the key, unless none is or its timer has run out.
pub open spec fn lookup(store: Map<Seq<u8>, Stored>, key: Seq<u8>, now: u128) -> Option<Seq<u8>> {
    if store.contains_key(key) && !store[key].expired_at(now) {
        Some(store[key].data)
    } else {
        None
    }
}

/// The store. No key occurs twice in it.
#[derive(Debug)]
pub struct DataMap {
    entries: Vec<MapEntry>,
}

impl View for DataMap {
    type V = Map<Seq<u8>, Stored>;

    closed spec fn view(&self) -> Map<Seq<u8>, Stored> {
        Map::new(
            |key: Seq<u8>| self.holds(key),
            |key: Seq<u8>| self.entries@[self.index_of(key)].value@,
        )
    }
}

impl DataMap {
    #[verifier::type_invariant]
    spec fn distinct_keys(self) -> bool {
        forall|i: int, j: int|
            0 <= i < j < self.entries@.len() ==> self.entries@[i].key@ != self.entries@[j].key@
    }

    spec fn holds(self, key: Seq<u8>) -> bool {
        exists|i: int| 0 <= i < self.entries@.len() && self.entries@[i].key@ == key
    }

    spec fn index_of(self, key: Seq<u8>) -> int {
        choose|i: int| 0 <= i < self.entries@.len() && self.entries@[i].key@ == key
    }

    /// An empty store.
    pub fn new() -> (r: Self)
        ensures
            r@ == Map::<Seq<u8>, Stored>::empty(),
    {
        let r = DataMap { entries: Vec::new() };
        r
    }

    /// Number of keys in the store, expired entries included.
    pub fn len(&self) -> (r: usize)
        ensures
            self@.dom().finite(),
            r == self@.dom().len(),
    {
        proof {
            use_type_invariant(self);
            self.lemma_dom_len(self.entries@.len() as int);
            assert(self@.dom() =~= self.keys_below(self.entries@.len() as int));
        }
        self.entries.len()
    }

    spec fn keys_below(self, n: int) -> Set<Seq<u8>> {
        Set::new(|key: Seq<u8>| exists|i: int| 0 <= i < n && self.entries@[i].key@ == key)
    }

    proof fn lemma_dom_len(self, n: int)
        requires
            self.distinct_keys(),
            0 <= n <= self.entries@.len(),
        ensures
            self.keys_below(n).finite(),
            self.keys_below(n).len() == n,
        decreases n,
    {
        if n == 0 {
            assert(self.keys_below(0) =~= Set::<Seq<u8>>::empty());
        } else {
            self.lemma_dom_len(n - 1);
            let key = self.entries@[n - 1].key@;
            assert(self.keys_below(n) =~= self.keys_below(n - 1).insert(key));
        }
    }

    /// Position of the entry with the given key.
    fn position(&self, key: &[u8]) -> (r: Option<usize>)
        ensures
            match r {
                Some(i) => i < self.entries@.len() && self.entries@[i as int].key@ == key@,
                None => !self.holds(key@),
            },
    {
        let mut i: usize = 0;
        while i < self.entries.len()
            invariant
                i <= self.entries@.len(),
                forall|j: int| 0 <= j < i ==> self.entries@[j].key@ != key@,
            decreases self.entries@.len() - i,
        {
            if bytes_eq(self.entries[i].key.as_slice(), key) {
                return Some(i);
            }
            i += 1;
        }
        None
    }

    /// Looks a key up at the clock reading `now`: the data stored under
    /// it, unless none is or its timer has run out. The store keeps an
    /// entry that the lookup finds expired.
    pub fn get(&self, key: &[u8], now: u128) -> (r: Option<&Vec<u8>>)
        ensures
            match r {
                Some(data) => lookup(self@, key@, now) == Some(data@),
                None => lookup(self@, key@, now) is None,
            },
    {
        proof {
            use_type_invariant(self);
        }
        match self.position(key) {
            Some(i) => {
                let value = &self.entries[i].value;
                if value.is_expired(now) {
                    None
                } else {
                    Some(&value.data)
                }
            },
            None => None,
        }
    }

    /// Stores the entry's value under its key. A value and a timer
    /// stored under that key before are replaced.
    pub fn insert(&mut self, entry: MapEntry)
        ensures
            final(self)@ == old(self)@.insert(entry.key_view(), entry.value_view()),
    {
        proof {
            use_type_invariant(&*self);
        }
        let ghost before = *self;
        let found = self.position(entry.key.as_slice());
        let mut taken = DataMap { entries: Vec::new() };
        core::mem::swap(self, &mut taken);
        let mut entries = taken.entries;
        match found {
            Some(i) => {
                entries.set(i, entry);
            },
            None => {
                entries.push(entry);
            },
        }
        *self = DataMap { entries };
        proof {
            let key = entry.key@;
            let at = match found {
                Some(i) => i as int,
                None => before.entries@.len() as int,
            };
            assert(self.entries@[at].key@ == key);
            assert forall|k: Seq<u8>| self.holds(k) == (k == key || before.holds(k)) by {
                if self.holds(k) && k != key {
                    assert(before.entries@[self.index_of(k)].key@ == k);
                }
                if before.holds(k) && k != key {
                    assert(self.entries@[before.index_of(k)].key@ == k);
                }
            }
        }
    }
}

} // verus!

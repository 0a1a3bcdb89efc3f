use vstd::prelude::*;
use crate::err::Error;
use crate::key::{Key, KeyView, Thing, ThingView};

verus! {

/// The key of a graph count: a record in a namespace and a database.
pub struct CountKey {
    pub ns: Seq<char>,
    pub db: Seq<char>,
    pub rec: ThingView,
}

/// The key of one graph counter as it is held by the transaction.
struct CountSlot {
    ns: String,
    db: String,
    rec: Thing,
}

impl View for CountSlot {
    type V = CountKey;

    closed spec fn view(&self) -> CountKey {
        CountKey { ns: self.ns@, db: self.db@, rec: self.rec@ }
    }
}

impl CountSlot {
    fn is(&self, ns: &String, db: &String, rec: &Thing) -> (r: bool)
        ensures
            r == (self@ == count_key(ns@, db@, rec@)),
    {
        self.ns == *ns && self.db == *db && self.rec.same(rec)
    }
}

pub open spec fn count_key(ns: Seq<char>, db: Seq<char>, rec: ThingView) -> CountKey {
    CountKey { ns, db, rec }
}

/// A transaction on a key-value store whose values are empty: the presence of
/// a key is the information. Besides the keys it holds the graph counts.
/// Every write takes the transaction by exclusive borrow: a sequence of
/// writes runs in one exclusive section, with no other operation between.
pub struct Transaction {
    keys: Vec<Key>,
    slots: Vec<CountSlot>,
    counts: Vec<i64>,
    writable: bool,
}

impl Transaction {
    /// The stored keys, in the order they were first written.
    pub closed spec fn stored(&self) -> Seq<KeyView> {
        self.keys@.map_values(|k: Key| k@)
    }

    /// The set of keys present in the transaction.
    pub open spec fn entries(&self) -> Set<KeyView> {
        self.stored().to_set()
    }

    /// Whether the transaction accepts writes.
    pub closed spec fn is_writable(&self) -> bool {
        self.writable
    }

    /// The graph count of a record; a record never counted has count 0.
    pub closed spec fn count_of(&self, k: CountKey) -> int {
        if exists|i: int| 0 <= i < self.slots.len() && self.slots[i]@ == k {
            let i = choose|i: int| 0 <= i < self.slots.len() && self.slots[i]@ == k;
            self.counts[i] as int
        } else {
            0
        }
    }

    /// The keys are stored once each, and so are the counters.
    pub closed spec fn wf(&self) -> bool {
        &&& self.stored().no_duplicates()
        &&& self.slots.len() == self.counts.len()
        &&& forall|i: int, j: int|
            0 <= i < j < self.slots.len() ==> self.slots[i]@ != self.slots[j]@
    }

    /// An empty transaction, writable or read-only.
    pub fn new(writable: bool) -> (r: Transaction)
        ensures
            r.wf(),
            r.entries() == Set::<KeyView>::empty(),
            r.is_writable() == writable,
            forall|k: CountKey| r.count_of(k) == 0,
    {
        let r = Transaction { keys: Vec::new(), slots: Vec::new(), counts: Vec::new(), writable };
        assert(r.entries() =~= Set::<KeyView>::empty());
        r
    }

    /// Whether the transaction accepts writes.
    pub fn writable(&self) -> (r: bool)
        ensures
            r == self.is_writable(),
    {
        self.writable
    }

    /// Whether `key` is present.
    pub fn has_key(&self, key: &Key) -> (r: bool)
        ensures
            r == self.entries().contains(key@),
    {
        let mut i: usize = 0;
        while i < self.keys.len()
            invariant
                0 <= i <= self.keys.len(),
                forall|j: int| 0 <= j < i ==> self.stored()[j] != key@,
            decreases self.keys.len() - i,
        {
            if self.keys[i].same(key) {
                assert(self.stored()[i as int] == key@);
                return true;
            }
            i += 1;
        }
        false
    }

    /// The number of keys present.
    pub fn len(&self) -> (r: usize)
        requires
            self.wf(),
        ensures
            r == self.entries().len(),
    {
        proof {
            self.stored().unique_seq_to_set();
        }
        self.keys.len()
    }

    /// Writes `key` with an empty value. Writing a key that is present already
    /// changes nothing. A read-only transaction refuses the write.
    pub fn set(&mut self, key: Key) -> (r: Result<(), Error>)
        requires
            old(self).wf(),
        ensures
            final(self).wf(),
            final(self).is_writable() == old(self).is_writable(),
            forall|k: CountKey| final(self).count_of(k) == old(self).count_of(k),
            old(self).is_writable() ==> r is Ok && final(self).entries() == old(self).entries().insert(key@),
            !old(self).is_writable() ==> (r matches Err(Error::StorageFault)) && final(self).entries() == old(self).entries(),
    {
        if !self.writable {
            return Err(Error::StorageFault);
        }
        if self.has_key(&key) {
            assert(old(self).entries().insert(key@) =~= old(self).entries());
            return Ok(());
        }
        let ghost kv = key@;
        self.keys.push(key);
        assert(self.stored() =~= old(self).stored().push(kv));
        assert(self.entries() =~= old(self).entries().insert(kv)) by {
            assert forall|k: KeyView| self.entries().contains(k) == old(self).entries().insert(kv).contains(k) by {
                if old(self).stored().contains(k) {
                    let j = choose|j: int| 0 <= j < old(self).stored().len() && old(self).stored()[j] == k;
                    assert(self.stored()[j] == k);
                }
                if k == kv {
                    assert(self.stored()[old(self).stored().len() as int] == k);
                }
            }
        }
        assert forall|i: int, j: int| 0 <= i < j < self.stored().len() implies self.stored()[i] != self.stored()[j] by {
            if j == old(self).stored().len() {
                assert(old(self).stored()[i] == self.stored()[i]);
            }
        }
        assert(self.counts@ == old(self).counts@);
        assert(self.slots@ == old(self).slots@);
        assert(forall|k: CountKey| self.count_of(k) == old(self).count_of(k));
        Ok(())
    }

    /// Every graph count lies in the range of `i64`.
    pub proof fn lemma_count_range(&self, k: CountKey)
        ensures
            i64::MIN <= self.count_of(k) <= i64::MAX,
    {
    }

    proof fn lemma_count_at(&self, i: int)
        requires
            self.wf(),
            0 <= i < self.slots.len(),
        ensures
            self.count_of(self.slots[i]@) == self.counts[i],
    {
        let k = self.slots[i]@;
        let j = choose|j: int| 0 <= j < self.slots.len() && self.slots[j]@ == k;
        assert(i == j);
    }

    /// Finds the counter of a record.
    fn find_count(&self, ns: &String, db: &String, rec: &Thing) -> (r: Option<usize>)
        requires
            self.wf(),
        ensures
            r matches Some(i) ==> i < self.slots.len() && self.slots[i as int]@ == count_key(ns@, db@, rec@),
            r is None ==> forall|j: int| 0 <= j < self.slots.len() ==> self.slots[j]@ != count_key(ns@, db@, rec@),
    {
        let mut i: usize = 0;
        while i < self.slots.len()
            invariant
                0 <= i <= self.slots.len(),
                forall|j: int| 0 <= j < i ==> self.slots[j]@ != count_key(ns@, db@, rec@),
            decreases self.slots.len() - i,
        {
            if self.slots[i].is(ns, db, rec) {
                return Some(i);
            }
            i += 1;
        }
        None
    }

    /// The graph count of record `rec`.
    pub fn graph_count(&self, ns: &str, db: &str, rec: &Thing) -> (r: i64)
        requires
            self.wf(),
        ensures
            r == self.count_of(count_key(ns@, db@, rec@)),
    {
        let ns = ns.to_owned();
        let db = db.to_owned();
        match self.find_count(&ns, &db, rec) {
            Some(i) => {
                proof {
                    self.lemma_count_at(i as int);
                }
                self.counts[i]
            },
            None => 0,
        }
    }

    /// Adds `delta` to the graph count of record `rec`. A read-only
    /// transaction refuses the update, and so does a count that would leave
    /// the range of `i64`; either way nothing changes.
    pub fn modify_graph_count(&mut self, ns: &str, db: &str, rec: &Thing, delta: i64) -> (r: Result<(), Error>)
        requires
            old(self).wf(),
        ensures
            final(self).wf(),
            final(self).is_writable() == old(self).is_writable(),
            final(self).entries() == old(self).entries(),
            ({
                let k = count_key(ns@, db@, rec@);
                let n = old(self).count_of(k) + delta;
                if old(self).is_writable() && i64::MIN <= n <= i64::MAX {
                    &&& r is Ok
                    &&& final(self).count_of(k) == n
                    &&& forall|k2: CountKey| k2 != k ==> final(self).count_of(k2) == old(self).count_of(k2)
                } else {
                    &&& r matches Err(Error::StorageFault)
                    &&& forall|k2: CountKey| final(self).count_of(k2) == old(self).count_of(k2)
                }
            }),
    {
        let ghost k = count_key(ns@, db@, rec@);
        if !self.writable {
            return Err(Error::StorageFault);
        }
        let ns = ns.to_owned();
        let db = db.to_owned();
        match self.find_count(&ns, &db, rec) {
            Some(i) => {
                proof {
                    self.lemma_count_at(i as int);
                }
                let n: i128 = self.counts[i] as i128 + delta as i128;
                if n < i64::MIN as i128 || n > i64::MAX as i128 {
                    return Err(Error::StorageFault);
                }
                self.counts.set(i, n as i64);
                assert(self.slots@ == old(self).slots@);
                assert(self.keys@ == old(self).keys@);
                proof {
                    self.lemma_count_at(i as int);
                    assert forall|k2: CountKey| k2 != k implies self.count_of(k2) == old(self).count_of(k2) by {
                        if exists|j: int| 0 <= j < self.slots.len() && self.slots[j]@ == k2 {
                            let j = choose|j: int| 0 <= j < self.slots.len() && self.slots[j]@ == k2;
                            self.lemma_count_at(j);
                            old(self).lemma_count_at(j);
                        }
                    }
                }
            },
            None => {
                let slot = CountSlot { ns, db, rec: rec.duplicate() };
                self.slots.push(slot);
                self.counts.push(delta);
                assert(self.keys@ == old(self).keys@);
                proof {
                    let last = self.slots.len() - 1;
                    assert(self.slots[last]@ == k);
                    self.lemma_count_at(last);
                    assert forall|k2: CountKey| k2 != k implies self.count_of(k2) == old(self).count_of(k2) by {
                        if exists|j: int| 0 <= j < old(self).slots.len() && old(self).slots[j]@ == k2 {
                            let j = choose|j: int| 0 <= j < old(self).slots.len() && old(self).slots[j]@ == k2;
                            assert(self.slots[j] == old(self).slots[j]);
                            self.lemma_count_at(j);
                            old(self).lemma_count_at(j);
                        } else {
                            assert forall|j: int| 0 <= j < self.slots.len() implies self.slots[j]@ != k2 by {
                                if j < last {
                                    assert(self.slots[j] == old(self).slots[j]);
                                }
                            }
                        }
                    }
                }
            },
        }
        Ok(())
    }
}

} // verus!

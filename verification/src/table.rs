//! Homopolymer-length probability tables: a partial mapping keyed by
//! (base symbol, run length on the reference, run length on the read).
//! A missing key is a defined lookup result of "no entry" (the engines read
//! it as probability zero), not an error.
//!
//! Each table pairs a `hashbrown` hash map from key to slot with two
//! parallel vectors of keys and values; the map is held behind a trusted
//! index type, and everything proved about lookups rests on its contract.

use vstd::prelude::*;
use bio::stats::LogProb;
use bio::stats::Prob;
use crate::probs::ln_of;
use crate::probs::ln_of_prob;

verus! {

/// Trusted key-to-slot index backed by `hashbrown::HashMap`.
#[verifier::external_body]
pub struct HpIndex {
    map: hashbrown::HashMap<(char, usize, usize), usize>,
}

/// The entries the hash map holds, as a mathematical map from key to slot.
pub uninterp spec fn hp_slots(ix: HpIndex) -> Map<(char, usize, usize), usize>;

/// The mathematical map with no entry.
pub open spec fn hp_no_slots() -> Map<(char, usize, usize), usize> {
    Map::empty()
}

/// Relies on `hashbrown::HashMap::new`: the new map holds no entry.
#[verifier::external_body]
fn hp_index_new() -> (r: HpIndex)
    ensures
        hp_slots(r) == hp_no_slots(),
{
    HpIndex { map: hashbrown::HashMap::new() }
}

/// Relies on `hashbrown::HashMap::insert`: after the call the key maps to
/// the given slot and every other entry is unchanged.
#[verifier::external_body]
fn hp_index_insert(ix: &mut HpIndex, key: (char, usize, usize), slot: usize)
    ensures
        hp_slots(*final(ix)) == hp_slots(*old(ix)).insert(key, slot),
{
    ix.map.insert(key, slot);
}

/// Relies on `hashbrown::HashMap::get`: the slot the key maps to, or `None`
/// where the map holds no entry for it.
#[verifier::external_body]
fn hp_index_get(ix: &HpIndex, key: (char, usize, usize)) -> (r: Option<usize>)
    ensures
        r == if hp_slots(*ix).dom().contains(key) {
            Some(hp_slots(*ix)[key])
        } else {
            None::<usize>
        },
{
    ix.map.get(&key).copied()
}

/// The natural logarithm of an optional linear probability: `None` stays
/// `None`.
pub open spec fn ln_opt(o: Option<Prob>) -> Option<LogProb> {
    match o {
        Some(p) => Some(ln_of(p)),
        None => None,
    }
}

/// No key occurs twice.
pub open spec fn keys_unique(keys: Seq<(char, usize, usize)>) -> bool {
    forall|p: int, q: int| 0 <= p < q < keys.len() ==> keys[p] != keys[q]
}

/// Under uniqueness, `index_of` returns the one index holding the key.
proof fn lemma_unique_index(keys: Seq<(char, usize, usize)>, i: int, key: (char, usize, usize))
    requires
        keys_unique(keys),
        0 <= i < keys.len(),
        keys[i] == key,
    ensures
        keys.contains(key),
        keys.index_of(key) == i,
{
    assert(keys.contains(key));
    let j = keys.index_of(key);
    assert(0 <= j < keys.len() && keys[j] == key);
    if i < j {
        assert(keys[i] != keys[j]);
    } else if j < i {
        assert(keys[j] != keys[i]);
    }
}

/// Appending a fresh key keeps the keys unique, adds exactly that key,
/// places it at the old length, and moves no other key.
proof fn lemma_keys_push(keys_old: Seq<(char, usize, usize)>, key: (char, usize, usize))
    requires
        keys_unique(keys_old),
        !keys_old.contains(key),
    ensures
        keys_unique(keys_old.push(key)),
        forall|k: (char, usize, usize)| #[trigger]
            keys_old.push(key).contains(k) <==> (keys_old.contains(k) || k == key),
        keys_old.push(key).index_of(key) == keys_old.len(),
        forall|k: (char, usize, usize)|
            keys_old.contains(k) ==> #[trigger] keys_old.push(key).index_of(k)
                == keys_old.index_of(k),
{
    let keys_new = keys_old.push(key);
    assert forall|k: (char, usize, usize)| #[trigger]
        keys_new.contains(k) implies (keys_old.contains(k) || k == key) by {
        let q = choose|q: int| 0 <= q < keys_new.len() && keys_new[q] == k;
        if q < keys_old.len() {
            assert(keys_old[q] == k);
        }
    }
    assert forall|k: (char, usize, usize)|
        keys_old.contains(k) implies #[trigger] keys_new.contains(k) by {
        let q = choose|q: int| 0 <= q < keys_old.len() && keys_old[q] == k;
        assert(keys_new[q] == k);
    }
    assert(keys_new.contains(key)) by {
        assert(keys_new[keys_old.len() as int] == key);
    }
    assert(keys_unique(keys_new)) by {
        assert forall|p: int, q: int|
            0 <= p < q < keys_new.len() implies keys_new[p] != keys_new[q] by {
            if q == keys_old.len() {
                assert(keys_new[q] == key);
                assert(keys_old[p] == keys_new[p]);
            }
        }
    }
    lemma_unique_index(keys_new, keys_old.len() as int, key);
    assert forall|k: (char, usize, usize)|
        keys_old.contains(k) implies #[trigger] keys_new.index_of(k) == keys_old.index_of(
        k,
    ) by {
        let q = keys_old.index_of(k);
        assert(0 <= q < keys_old.len() && keys_old[q] == k);
        lemma_unique_index(keys_new, q, k);
    }
}

/// Homopolymer-length probabilities, linear domain.
pub struct HomopolymerProbs {
    index: HpIndex,
    keys: Vec<(char, usize, usize)>,
    vals: Vec<Prob>,
}

/// Homopolymer-length probabilities, log domain.
pub struct LnHomopolymerProbs {
    index: HpIndex,
    keys: Vec<(char, usize, usize)>,
    vals: Vec<LogProb>,
}

impl HomopolymerProbs {
    /// The keys and values agree in number, no key occurs twice, and the
    /// trusted index maps exactly the stored keys, each to its slot.
    pub closed spec fn wf(self) -> bool {
        &&& self.vals@.len() == self.keys@.len()
        &&& keys_unique(self.keys@)
        &&& forall|k: (char, usize, usize)|
            hp_slots(self.index).dom().contains(k) <==> self.keys@.contains(k)
        &&& forall|p: int|
            0 <= p < self.keys@.len() ==> hp_slots(self.index)[#[trigger] self.keys@[p]] == p
    }

    /// Whether the table holds an entry for the key.
    pub closed spec fn spec_contains(self, key: (char, usize, usize)) -> bool {
        self.keys@.contains(key)
    }

    /// The entry stored under the key, where there is one.
    pub closed spec fn spec_get(self, key: (char, usize, usize)) -> Option<Prob> {
        if self.keys@.contains(key) {
            Some(self.vals@[self.keys@.index_of(key)])
        } else {
            None
        }
    }

    /// The empty table.
    pub fn new() -> (r: HomopolymerProbs)
        ensures
            r.wf(),
            forall|k: (char, usize, usize)| r.spec_get(k) == None::<Prob>,
            forall|k: (char, usize, usize)| !r.spec_contains(k),
    {
        HomopolymerProbs { index: hp_index_new(), keys: Vec::new(), vals: Vec::new() }
    }

    /// Stores the probability of observing, for a run of `base`, the given
    /// length on the read given the given length on the reference;
    /// replaces any earlier entry under the same key.
    pub fn insert(&mut self, base: char, len_on_ref: usize, len_on_read: usize, p: Prob)
        requires
            old(self).wf(),
        ensures
            final(self).wf(),
            final(self).spec_get((base, len_on_ref, len_on_read)) == Some(p),
            forall|k: (char, usize, usize)|
                k != (base, len_on_ref, len_on_read) ==> final(self).spec_get(k) == old(
                    self,
                ).spec_get(k),
            forall|k: (char, usize, usize)|
                final(self).spec_contains(k) <==> (old(self).spec_contains(k) || k == (
                base,
                len_on_ref,
                len_on_read,
                )),
    {
        let key = (base, len_on_ref, len_on_read);
        match hp_index_get(&self.index, key) {
            Some(slot) => {
                proof {
                    assert(self.keys@.contains(key));
                    let i = self.keys@.index_of(key);
                    assert(0 <= i < self.keys@.len() && self.keys@[i] == key);
                    assert(hp_slots(self.index)[self.keys@[i]] == i);
                    assert(slot == i);
                }
                self.vals[slot] = p;
                proof {
                    lemma_unique_index(self.keys@, slot as int, key);
                    assert forall|k: (char, usize, usize)| k != key implies self.spec_get(k)
                        == old(self).spec_get(k) by {
                        if self.keys@.contains(k) {
                            let j = self.keys@.index_of(k);
                            assert(0 <= j < self.keys@.len() && self.keys@[j] == k);
                            assert(j != slot as int);
                        }
                    }
                }
            },
            None => {
                let slot = self.keys.len();
                self.keys.push(key);
                self.vals.push(p);
                hp_index_insert(&mut self.index, key, slot);
                proof {
                    lemma_keys_push(old(self).keys@, key);
                    assert(self.keys@ == old(self).keys@.push(key));
                    assert(self.spec_get(key) == Some(p));
                }
            },
        }
    }

    /// Looks the key up: the stored probability, or `None` where the table
    /// holds no entry (the engines read `None` as probability zero).
    pub fn get(&self, base: char, len_on_ref: usize, len_on_read: usize) -> (r: Option<Prob>)
        requires
            self.wf(),
        ensures
            r == self.spec_get((base, len_on_ref, len_on_read)),
            r is Some <==> self.spec_contains((base, len_on_ref, len_on_read)),
    {
        let key = (base, len_on_ref, len_on_read);
        match hp_index_get(&self.index, key) {
            Some(slot) => {
                proof {
                    assert(self.keys@.contains(key));
                    let i = self.keys@.index_of(key);
                    assert(0 <= i < self.keys@.len() && self.keys@[i] == key);
                    assert(hp_slots(self.index)[self.keys@[i]] == i);
                }
                Some(self.vals[slot])
            },
            None => None,
        }
    }

    /// The log-domain mirror of the table: the same keys, every value
    /// replaced by its natural logarithm.
    pub fn ln(&self) -> (r: LnHomopolymerProbs)
        requires
            self.wf(),
        ensures
            r.wf(),
            forall|k: (char, usize, usize)| r.spec_contains(k) == self.spec_contains(k),
            forall|k: (char, usize, usize)| r.spec_get(k) == ln_opt(self.spec_get(k)),
    {
        let mut r = LnHomopolymerProbs::new();
        let mut t: usize = 0;
        while t < self.keys.len()
            invariant
                self.wf(),
                r.wf(),
                t <= self.keys@.len(),
                forall|k: (char, usize, usize)| #[trigger] r.spec_contains(k) <==> (exists|p: int|
                    0 <= p < t && self.keys@[p] == k),
                forall|p: int|
                    0 <= p < t ==> r.spec_get(#[trigger] self.keys@[p]) == Some(
                        ln_of(self.vals@[p]),
                    ),
            decreases self.keys@.len() - t,
        {
            let key = self.keys[t];
            let lp = ln_of_prob(self.vals[t]);
            r.insert(key.0, key.1, key.2, lp);
            proof {
                assert forall|k: (char, usize, usize)| #[trigger] r.spec_contains(k) implies (
                exists|p: int| 0 <= p < t + 1 && self.keys@[p] == k) by {
                    if k == key {
                        assert(self.keys@[t as int] == k);
                    }
                }
                assert forall|p: int| 0 <= p < t + 1 implies r.spec_get(
                    #[trigger] self.keys@[p],
                ) == Some(ln_of(self.vals@[p])) by {
                    if p < t {
                        assert(self.keys@[p] != key);
                    }
                }
            }
            t = t + 1;
        }
        proof {
            assert forall|k: (char, usize, usize)|
                r.spec_get(k) == ln_opt(#[trigger] self.spec_get(k)) by {
                if self.keys@.contains(k) {
                    let j = self.keys@.index_of(k);
                    assert(0 <= j < self.keys@.len() && self.keys@[j] == k);
                    lemma_unique_index(self.keys@, j, k);
                    assert(self.spec_get(k) == Some(self.vals@[j]));
                    assert(r.spec_get(self.keys@[j]) == Some(ln_of(self.vals@[j])));
                } else {
                    assert(!r.spec_contains(k));
                }
            }
            assert forall|k: (char, usize, usize)| #[trigger] self.spec_contains(k) implies r.spec_contains(
                k,
            ) by {
                let j = self.keys@.index_of(k);
                assert(0 <= j < self.keys@.len() && self.keys@[j] == k);
            }
        }
        r
    }
}

impl LnHomopolymerProbs {
    /// The keys and values agree in number, no key occurs twice, and the
    /// trusted index maps exactly the stored keys, each to its slot.
    pub closed spec fn wf(self) -> bool {
        &&& self.vals@.len() == self.keys@.len()
        &&& keys_unique(self.keys@)
        &&& forall|k: (char, usize, usize)|
            hp_slots(self.index).dom().contains(k) <==> self.keys@.contains(k)
        &&& forall|p: int|
            0 <= p < self.keys@.len() ==> hp_slots(self.index)[#[trigger] self.keys@[p]] == p
    }

    /// Whether the table holds an entry for the key.
    pub closed spec fn spec_contains(self, key: (char, usize, usize)) -> bool {
        self.keys@.contains(key)
    }

    /// The entry stored under the key, where there is one.
    pub closed spec fn spec_get(self, key: (char, usize, usize)) -> Option<LogProb> {
        if self.keys@.contains(key) {
            Some(self.vals@[self.keys@.index_of(key)])
        } else {
            None
        }
    }

    /// The empty table.
    pub fn new() -> (r: LnHomopolymerProbs)
        ensures
            r.wf(),
            forall|k: (char, usize, usize)| r.spec_get(k) == None::<LogProb>,
            forall|k: (char, usize, usize)| !r.spec_contains(k),
    {
        LnHomopolymerProbs { index: hp_index_new(), keys: Vec::new(), vals: Vec::new() }
    }

    /// Stores the log-probability under the key; replaces any earlier entry
    /// under the same key.
    pub fn insert(&mut self, base: char, len_on_ref: usize, len_on_read: usize, p: LogProb)
        requires
            old(self).wf(),
        ensures
            final(self).wf(),
            final(self).spec_get((base, len_on_ref, len_on_read)) == Some(p),
            forall|k: (char, usize, usize)|
                k != (base, len_on_ref, len_on_read) ==> final(self).spec_get(k) == old(
                    self,
                ).spec_get(k),
            forall|k: (char, usize, usize)|
                final(self).spec_contains(k) <==> (old(self).spec_contains(k) || k == (
                base,
                len_on_ref,
                len_on_read,
                )),
    {
        let key = (base, len_on_ref, len_on_read);
        match hp_index_get(&self.index, key) {
            Some(slot) => {
                proof {
                    assert(self.keys@.contains(key));
                    let i = self.keys@.index_of(key);
                    assert(0 <= i < self.keys@.len() && self.keys@[i] == key);
                    assert(hp_slots(self.index)[self.keys@[i]] == i);
                    assert(slot == i);
                }
                self.vals[slot] = p;
                proof {
                    lemma_unique_index(self.keys@, slot as int, key);
                    assert forall|k: (char, usize, usize)| k != key implies self.spec_get(k)
                        == old(self).spec_get(k) by {
                        if self.keys@.contains(k) {
                            let j = self.keys@.index_of(k);
                            assert(0 <= j < self.keys@.len() && self.keys@[j] == k);
                            assert(j != slot as int);
                        }
                    }
                }
            },
            None => {
                let slot = self.keys.len();
                self.keys.push(key);
                self.vals.push(p);
                hp_index_insert(&mut self.index, key, slot);
                proof {
                    lemma_keys_push(old(self).keys@, key);
                    assert(self.keys@ == old(self).keys@.push(key));
                    assert(self.spec_get(key) == Some(p));
                }
            },
        }
    }

    /// Looks the key up: the stored log-probability, or `None` where the
    /// table holds no entry.
    pub fn get(&self, base: char, len_on_ref: usize, len_on_read: usize) -> (r: Option<LogProb>)
        requires
            self.wf(),
        ensures
            r == self.spec_get((base, len_on_ref, len_on_read)),
            r is Some <==> self.spec_contains((base, len_on_ref, len_on_read)),
    {
        let key = (base, len_on_ref, len_on_read);
        match hp_index_get(&self.index, key) {
            Some(slot) => {
                proof {
                    assert(self.keys@.contains(key));
                    let i = self.keys@.index_of(key);
                    assert(0 <= i < self.keys@.len() && self.keys@[i] == key);
                    assert(hp_slots(self.index)[self.keys@[i]] == i);
                }
                Some(self.vals[slot])
            },
            None => None,
        }
    }
}

} // verus!
